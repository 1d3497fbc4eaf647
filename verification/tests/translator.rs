use emoji_lang::translator::{replace, translate_to_emoji_lang};

fn chars(s: &str) -> Vec<char> {
    s.chars().collect()
}

fn replaced(text: &str, from: &str, to: &str) -> String {
    replace(&chars(text), &chars(from), &chars(to)).into_iter().collect()
}

#[test]
fn statement_is_respelled() {
    assert_eq!(translate_to_emoji_lang("print 1 + 2;"), "🖨 1 🥂 2✊\n🔚\n");
}

#[test]
fn every_operator_is_respelled() {
    assert_eq!(translate_to_emoji_lang("a == b != c >= d <= e > f < g = h - i * j / k % l , m"), "a 👏👏 b 🙅‍♀️👏 c 📈👏 d 📉👏 e 📈 f 📉 g 👏 h 💔 i ✨ j 🔪 k ⚡️ l 🔸 m\n🔚\n");
}

#[test]
fn every_keyword_is_respelled() {
    assert_eq!(translate_to_emoji_lang("var const if else true false nil return while for print and or fn"), "🪄 🔒 🤔 🤷‍♀️ 👍 👎 🫥 🔙 🌀 ⏳ 🖨 🤝 🤌 🤖\n🔚\n");
}

#[test]
fn brackets_are_respelled() {
    assert_eq!(translate_to_emoji_lang("f(x) { g(y); }"), "f🫱x🫲 🫸 g🫱y🫲✊ 🫷\n🔚\n");
}

#[test]
fn function_is_replaced_whole() {
    assert_eq!(translate_to_emoji_lang("function"), "\u{1F916}\n\u{1F51A}\n");
    assert_eq!(translate_to_emoji_lang("function f() {}"), "🤖 f🫱🫲 🫸🫷\n🔚\n");
    assert_eq!(translate_to_emoji_lang("fun f() {}"), "🤖 f🫱🫲 🫸🫷\n🔚\n");
    assert_eq!(translate_to_emoji_lang("fn f() {}"), "🤖 f🫱🫲 🫸🫷\n🔚\n");
}

#[test]
fn longer_operators_are_replaced_whole() {
    assert_eq!(translate_to_emoji_lang("=="), "👏👏\n🔚\n");
    assert_eq!(translate_to_emoji_lang("!="), "🙅‍♀️👏\n🔚\n");
    assert_eq!(translate_to_emoji_lang("<="), "📉👏\n🔚\n");
    assert_eq!(translate_to_emoji_lang(">="), "📈👏\n🔚\n");
    assert_eq!(translate_to_emoji_lang("a<=b==c"), "a📉👏b👏👏c\n🔚\n");
}

#[test]
fn text_in_the_language_is_left_alone() {
    assert_eq!(translate_to_emoji_lang("🖨🧵🫥🧵✊"), "🖨🧵🫥🧵✊\n🔚\n");
}

#[test]
fn patterns_inside_words_are_replaced_too() {
    assert_eq!(translate_to_emoji_lang("before order android"), "be⏳e 🤌der 🤝roid\n🔚\n");
}

#[test]
fn white_space_at_the_end_is_dropped() {
    assert_eq!(translate_to_emoji_lang("var x = 1;  \n\u{9}\n"), "🪄 x 👏 1✊\n🔚\n");
}

#[test]
fn unicode_white_space_at_the_end_is_dropped() {
    assert_eq!(translate_to_emoji_lang("x\u{3000}\u{2028}\u{a0}"), "x\n🔚\n");
}

#[test]
fn zero_width_space_is_kept() {
    assert_eq!(translate_to_emoji_lang("x\u{200b}"), "x\u{200b}\n🔚\n");
}

#[test]
fn white_space_inside_is_kept() {
    assert_eq!(translate_to_emoji_lang("a \n b"), "a \n b\n🔚\n");
}

#[test]
fn empty_input_is_the_end_mark() {
    assert_eq!(translate_to_emoji_lang(""), "\n🔚\n");
}

#[test]
fn only_white_space_is_the_end_mark() {
    assert_eq!(translate_to_emoji_lang(" \n "), "\n🔚\n");
}

#[test]
fn translation_agrees_with_replacing_in_table_order() {
    let input = "for (var i = 0; i <= 3; i = i + 1) { print i == 2 or false; }";
    let table = [
        ("function", "🤖"),
        ("return", "🔙"),
        ("const", "🔒"),
        ("false", "👎"),
        ("print", "🖨"),
        ("while", "🌀"),
        ("else", "🤷‍♀️"),
        ("true", "👍"),
        ("and", "🤝"),
        ("for", "⏳"),
        ("fun", "🤖"),
        ("nil", "🫥"),
        ("var", "🪄"),
        ("!=", "🙅‍♀️👏"),
        ("<=", "📉👏"),
        ("==", "👏👏"),
        (">=", "📈👏"),
        ("fn", "🤖"),
        ("if", "🤔"),
        ("or", "🤌"),
        ("%", "⚡️"),
        ("(", "🫱"),
        (")", "🫲"),
        ("*", "✨"),
        ("+", "🥂"),
        (",", "🔸"),
        ("-", "💔"),
        ("/", "🔪"),
        (";", "✊"),
        ("<", "📉"),
        ("=", "👏"),
        (">", "📈"),
        ("{", "🫸"),
        ("}", "🫷"),
    ];
    let mut expected = input.to_string();
    for (from, to) in table {
        expected = expected.replace(from, to);
    }
    expected = expected.trim_end().to_string();
    expected.push_str("\n🔚\n");
    assert_eq!(translate_to_emoji_lang(input), expected);
}

#[test]
fn replace_finds_occurrences_left_to_right_without_overlap() {
    assert_eq!(replaced("aaa", "aa", "b"), "ba");
    assert_eq!(replaced("aaaa", "aa", "b"), "bb");
    assert_eq!(replaced("abcabc", "bc", ""), "aa");
    assert_eq!(replaced("abc", "abcd", "x"), "abc");
    assert_eq!(replaced("abc", "c", "cc"), "abcc");
    assert_eq!(replaced("", "a", "b"), "");
}

#[test]
fn replace_with_an_empty_pattern_changes_nothing() {
    assert_eq!(replaced("abc", "", "x"), "abc");
}

#[test]
fn replacement_is_not_searched_again() {
    assert_eq!(replaced("ab", "a", "aa"), "aab");
}
