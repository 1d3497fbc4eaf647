//! A transliterator from conventional spellings to the language's own.
//!
//! Every conventional keyword, operator and delimiter is replaced by its
//! spelling in the language, one pattern after the other in the order of
//! the table, each over the whole text and from left to right. The table
//! holds the longest patterns first, so that a keyword or operator that
//! contains a shorter one is replaced whole. The result ends, after the
//! last character that is no white space, with a line that holds the
//! end-of-file mark.

use vstd::prelude::*;
use vstd::std_specs::iter::IteratorSpec;
use vstd::string::StringExecFns;

verus! {

/// The number of patterns.
pub open spec fn patterns() -> nat {
    34
}

/// The `i`-th pattern and its replacement. The patterns stand longest
/// first, and in ascending order of their bytes where they are equally
/// long: so no pattern is replaced before a longer pattern that contains
/// it, and `function`, `==` or `<=` are replaced whole.
pub open spec fn entry_view(i: nat) -> (Seq<char>, Seq<char>) {
    if i == 0 {
        ("function"@, "🤖"@)
    } else if i == 1 {
        ("return"@, "🔙"@)
    } else if i == 2 {
        ("const"@, "🔒"@)
    } else if i == 3 {
        ("false"@, "👎"@)
    } else if i == 4 {
        ("print"@, "🖨"@)
    } else if i == 5 {
        ("while"@, "🌀"@)
    } else if i == 6 {
        ("else"@, "🤷‍♀️"@)
    } else if i == 7 {
        ("true"@, "👍"@)
    } else if i == 8 {
        ("and"@, "🤝"@)
    } else if i == 9 {
        ("for"@, "⏳"@)
    } else if i == 10 {
        ("fun"@, "🤖"@)
    } else if i == 11 {
        ("nil"@, "🫥"@)
    } else if i == 12 {
        ("var"@, "🪄"@)
    } else if i == 13 {
        ("!="@, "🙅‍♀️👏"@)
    } else if i == 14 {
        ("<="@, "📉👏"@)
    } else if i == 15 {
        ("=="@, "👏👏"@)
    } else if i == 16 {
        (">="@, "📈👏"@)
    } else if i == 17 {
        ("fn"@, "🤖"@)
    } else if i == 18 {
        ("if"@, "🤔"@)
    } else if i == 19 {
        ("or"@, "🤌"@)
    } else if i == 20 {
        ("%"@, "⚡️"@)
    } else if i == 21 {
        ("("@, "🫱"@)
    } else if i == 22 {
        (")"@, "🫲"@)
    } else if i == 23 {
        ("*"@, "✨"@)
    } else if i == 24 {
        ("+"@, "🥂"@)
    } else if i == 25 {
        (","@, "🔸"@)
    } else if i == 26 {
        ("-"@, "💔"@)
    } else if i == 27 {
        ("/"@, "🔪"@)
    } else if i == 28 {
        (";"@, "✊"@)
    } else if i == 29 {
        ("<"@, "📉"@)
    } else if i == 30 {
        ("="@, "👏"@)
    } else if i == 31 {
        (">"@, "📈"@)
    } else if i == 32 {
        ("{"@, "🫸"@)
    } else {
        ("}"@, "🫷"@)
    }
}

fn entry(i: usize) -> (pair: (&'static str, &'static str))
    requires
        i < patterns(),
    ensures
        pair.0@ == entry_view(i as nat).0,
        pair.1@ == entry_view(i as nat).1,
{
    if i == 0 {
        ("function", "🤖")
    } else if i == 1 {
        ("return", "🔙")
    } else if i == 2 {
        ("const", "🔒")
    } else if i == 3 {
        ("false", "👎")
    } else if i == 4 {
        ("print", "🖨")
    } else if i == 5 {
        ("while", "🌀")
    } else if i == 6 {
        ("else", "🤷‍♀️")
    } else if i == 7 {
        ("true", "👍")
    } else if i == 8 {
        ("and", "🤝")
    } else if i == 9 {
        ("for", "⏳")
    } else if i == 10 {
        ("fun", "🤖")
    } else if i == 11 {
        ("nil", "🫥")
    } else if i == 12 {
        ("var", "🪄")
    } else if i == 13 {
        ("!=", "🙅‍♀️👏")
    } else if i == 14 {
        ("<=", "📉👏")
    } else if i == 15 {
        ("==", "👏👏")
    } else if i == 16 {
        (">=", "📈👏")
    } else if i == 17 {
        ("fn", "🤖")
    } else if i == 18 {
        ("if", "🤔")
    } else if i == 19 {
        ("or", "🤌")
    } else if i == 20 {
        ("%", "⚡️")
    } else if i == 21 {
        ("(", "🫱")
    } else if i == 22 {
        (")", "🫲")
    } else if i == 23 {
        ("*", "✨")
    } else if i == 24 {
        ("+", "🥂")
    } else if i == 25 {
        (",", "🔸")
    } else if i == 26 {
        ("-", "💔")
    } else if i == 27 {
        ("/", "🔪")
    } else if i == 28 {
        (";", "✊")
    } else if i == 29 {
        ("<", "📉")
    } else if i == 30 {
        ("=", "👏")
    } else if i == 31 {
        (">", "📈")
    } else if i == 32 {
        ("{", "🫸")
    } else {
        ("}", "🫷")
    }
}

/// The number of characters of the `i`-th pattern.
pub open spec fn pattern_length(i: nat) -> nat {
    if i < 1 {
        8
    } else if i < 2 {
        6
    } else if i < 6 {
        5
    } else if i < 8 {
        4
    } else if i < 13 {
        3
    } else if i < 20 {
        2
    } else {
        1
    }
}

/// Every pattern has the length that its place in the table gives it, and
/// begins with a character of the conventional spelling: one below 128.
pub proof fn lemma_patterns(i: nat)
    requires
        i < patterns(),
    ensures
        entry_view(i).0.len() == pattern_length(i),
        pattern_length(i) > 0,
        (entry_view(i).0[0] as int) < 128,
{
    reveal_strlit("function");
    reveal_strlit("return");
    reveal_strlit("const");
    reveal_strlit("false");
    reveal_strlit("print");
    reveal_strlit("while");
    reveal_strlit("else");
    reveal_strlit("true");
    reveal_strlit("and");
    reveal_strlit("for");
    reveal_strlit("fun");
    reveal_strlit("nil");
    reveal_strlit("var");
    reveal_strlit("!=");
    reveal_strlit("<=");
    reveal_strlit("==");
    reveal_strlit(">=");
    reveal_strlit("fn");
    reveal_strlit("if");
    reveal_strlit("or");
    reveal_strlit("%");
    reveal_strlit("(");
    reveal_strlit(")");
    reveal_strlit("*");
    reveal_strlit("+");
    reveal_strlit(",");
    reveal_strlit("-");
    reveal_strlit("/");
    reveal_strlit(";");
    reveal_strlit("<");
    reveal_strlit("=");
    reveal_strlit(">");
    reveal_strlit("{");
    reveal_strlit("}");
}

/// Longest first: no pattern is replaced before a longer one, and so none
/// before a pattern that contains it without being the same.
pub proof fn lemma_longest_first(i: nat, j: nat)
    requires
        i <= j < patterns(),
    ensures
        entry_view(i).0.len() >= entry_view(j).0.len(),
{
    lemma_patterns(i);
    lemma_patterns(j);
}

/// The end-of-file mark on a line of its own.
pub open spec fn end_mark() -> Seq<char> {
    "\n🔚\n"@
}

/// `text` with every occurrence of `from` replaced by `to`: occurrences
/// are found from left to right and do not overlap. An empty `from`
/// replaces nothing.
pub open spec fn replaced(text: Seq<char>, from: Seq<char>, to: Seq<char>) -> Seq<char>
    decreases text.len(),
{
    if from.len() == 0 || text.len() == 0 {
        text
    } else if from.is_prefix_of(text) {
        to + replaced(text.skip(from.len() as int), from, to)
    } else {
        seq![text[0]] + replaced(text.skip(1), from, to)
    }
}

/// `text` after the first `count` patterns of the table have been
/// replaced, in order.
pub open spec fn substituted(text: Seq<char>, count: nat) -> Seq<char>
    decreases count,
{
    if count == 0 {
        text
    } else {
        replaced(
            substituted(text, (count - 1) as nat),
            entry_view((count - 1) as nat).0,
            entry_view((count - 1) as nat).1,
        )
    }
}

/// Whether `c` is white space: the characters with the Unicode property
/// White_Space.
pub open spec fn is_space(c: char) -> bool {
    ('\u{0009}' <= c && c <= '\u{000D}') || c == ' ' || c == '\u{0085}' || c == '\u{00A0}' || c
        == '\u{1680}' || ('\u{2000}' <= c && c <= '\u{200A}') || c == '\u{2028}' || c
        == '\u{2029}' || c == '\u{202F}' || c == '\u{205F}' || c == '\u{3000}'
}

/// `text` without the white space at its end.
pub open spec fn trimmed_end(text: Seq<char>) -> Seq<char>
    decreases text.len(),
{
    if text.len() > 0 && is_space(text.last()) {
        trimmed_end(text.drop_last())
    } else {
        text
    }
}

/// The transliteration of `input`.
pub open spec fn translated(input: Seq<char>) -> Seq<char> {
    trimmed_end(substituted(input, patterns())) + end_mark()
}

/// Whether no character of `text` belongs to the conventional spelling:
/// none is below 128.
pub open spec fn respelled(text: Seq<char>) -> bool {
    forall|i: int| 0 <= i < text.len() ==> (#[trigger] text[i] as int) >= 128
}

/// A pattern whose first character does not occur in a text does not
/// occur in it, and replacing it changes nothing.
pub proof fn lemma_replaced_without(text: Seq<char>, from: Seq<char>, to: Seq<char>)
    requires
        from.len() > 0,
        forall|i: int| 0 <= i < text.len() ==> #[trigger] text[i] != from[0],
    ensures
        replaced(text, from, to) == text,
    decreases text.len(),
{
    if text.len() > 0 {
        assert(text[0] != from[0]);
        assert(!from.is_prefix_of(text));
        lemma_replaced_without(text.skip(1), from, to);
        assert(seq![text[0]] + text.skip(1) =~= text);
    }
}

/// What is spelled in the language already is left as it is: once the
/// first `done` patterns have left a text without a character of the
/// conventional spelling, the other patterns change nothing.
pub proof fn lemma_respelled_stays(input: Seq<char>, done: nat, count: nat)
    requires
        done <= count <= patterns(),
        respelled(substituted(input, done)),
    ensures
        substituted(input, count) == substituted(input, done),
    decreases count,
{
    if done < count {
        lemma_respelled_stays(input, done, (count - 1) as nat);
        lemma_patterns((count - 1) as nat);
        lemma_replaced_without(
            substituted(input, done),
            entry_view((count - 1) as nat).0,
            entry_view((count - 1) as nat).1,
        );
    }
}

/// A text without a character of the conventional spelling comes out as
/// it went in, but for the white space at its end and the end-of-file
/// mark.
pub proof fn lemma_respelled_translated(input: Seq<char>)
    requires
        respelled(input),
    ensures
        translated(input) == trimmed_end(input) + end_mark(),
{
    lemma_respelled_stays(input, 0, patterns());
}

/// The keyword `function` is replaced whole, by the one sign of a
/// function declaration: no letter of it is left behind.
pub proof fn lemma_function_whole()
    ensures
        translated("function"@) == "🤖"@ + end_mark(),
{
    let input = "function"@;
    let sign = "🤖"@;
    reveal_strlit("function");
    reveal_strlit("🤖");
    assert(input.is_prefix_of(input));
    assert(input.skip(input.len() as int) =~= Seq::<char>::empty());
    assert(replaced(input.skip(input.len() as int), input, sign) =~= Seq::<char>::empty());
    assert(replaced(input, input, sign) =~= sign);
    assert(substituted(input, 0) == input);
    assert(substituted(input, 1) == sign);
    assert(respelled(sign));
    lemma_respelled_stays(input, 1, patterns());
    assert(!is_space(sign.last()));
}

/// `std::string::String::push` appends the given character to the end of
/// the string.
pub assume_specification[ String::push ](s: &mut String, ch: char)
    ensures
        final(s)@ == old(s)@.push(ch),
;

fn chars_of(text: &str) -> (chars: Vec<char>)
    ensures
        chars@ == text@,
{
    let n = text.unicode_len();
    let mut chars: Vec<char> = Vec::new();
    let mut iter = text.chars();
    let mut i: usize = 0;
    while i < n
        invariant
            i <= n,
            n == text@.len(),
            chars@ == text@.take(i as int),
            iter.remaining() == text@.skip(i as int),
            iter.obeys_prophetic_iter_laws(),
        decreases n - i,
    {
        let ghost before = iter;
        let next = iter.next();
        proof {
            vstd::string::next_postcondition(&before, &iter, next);
            assert(text@.skip(i as int).drop_first() =~= text@.skip(i + 1));
            assert(text@.take(i as int).push(text@[i as int]) =~= text@.take(i + 1));
        }
        match next {
            Some(c) => {
                chars.push(c);
            },
            None => {},
        }
        i += 1;
    }
    assert(text@.take(n as int) =~= text@);
    chars
}

fn text_of(chars: &Vec<char>) -> (text: String)
    ensures
        text@ == chars@,
{
    let mut text = String::new();
    let mut i: usize = 0;
    while i < chars.len()
        invariant
            i <= chars@.len(),
            text@ == chars@.take(i as int),
        decreases chars@.len() - i,
    {
        text.push(chars[i]);
        assert(chars@.take(i as int).push(chars@[i as int]) =~= chars@.take(i + 1));
        i += 1;
    }
    assert(chars@.take(chars@.len() as int) =~= chars@);
    text
}

fn starts_at(text: &Vec<char>, at: usize, pattern: &Vec<char>) -> (found: bool)
    requires
        at <= text@.len(),
    ensures
        found == pattern@.is_prefix_of(text@.skip(at as int)),
{
    if pattern.len() > text.len() - at {
        return false;
    }
    let mut k: usize = 0;
    while k < pattern.len()
        invariant
            k <= pattern@.len(),
            at + pattern@.len() <= text@.len(),
            pattern.len() == pattern@.len(),
            text.len() == text@.len(),
            forall|j: int| 0 <= j < k ==> pattern@[j] == text@[at + j],
        decreases pattern@.len() - k,
    {
        assert(at + k < text.len());
        if pattern[k] != text[at + k] {
            assert(text@.skip(at as int)[k as int] == text@[at + k]);
            return false;
        }
        k += 1;
    }
    assert(pattern@ =~= text@.skip(at as int).subrange(0, pattern@.len() as int));
    true
}

fn is_whitespace(c: char) -> (space: bool)
    ensures
        space == is_space(c),
{
    ('\u{0009}' <= c && c <= '\u{000D}') || c == ' ' || c == '\u{0085}' || c == '\u{00A0}' || c
        == '\u{1680}' || ('\u{2000}' <= c && c <= '\u{200A}') || c == '\u{2028}' || c
        == '\u{2029}' || c == '\u{202F}' || c == '\u{205F}' || c == '\u{3000}'
}

/// `text` with every occurrence of `from` replaced by `to`.
pub fn replace(text: &Vec<char>, from: &Vec<char>, to: &Vec<char>) -> (out: Vec<char>)
    ensures
        out@ == replaced(text@, from@, to@),
{
    let mut out: Vec<char> = Vec::new();
    let mut i: usize = 0;
    assert(text@.skip(0) =~= text@);
    while i < text.len()
        invariant
            i <= text@.len(),
            out@ + replaced(text@.skip(i as int), from@, to@) == replaced(text@, from@, to@),
        decreases text@.len() - i,
    {
        let ghost rest = text@.skip(i as int);
        if from.len() > 0 && starts_at(text, i, from) {
            let ghost before = out@;
            let mut k: usize = 0;
            while k < to.len()
                invariant
                    k <= to@.len(),
                    out@ == before + to@.take(k as int),
                decreases to@.len() - k,
            {
                out.push(to[k]);
                assert(to@.take(k as int).push(to@[k as int]) =~= to@.take(k + 1));
                assert(out@ =~= before + to@.take(k + 1));
                k += 1;
            }
            assert(to@.take(to@.len() as int) =~= to@);
            assert(rest.skip(from@.len() as int) =~= text@.skip(i + from@.len()));
            assert(out@ + replaced(text@.skip(i + from@.len()), from@, to@) =~= before + replaced(
                rest,
                from@,
                to@,
            ));
            i += from.len();
        } else {
            let ghost before = out@;
            out.push(text[i]);
            assert(rest.skip(1) =~= text@.skip(i + 1));
            assert(rest[0] == text@[i as int]);
            assert(out@ + replaced(text@.skip(i + 1), from@, to@) =~= before + replaced(
                rest,
                from@,
                to@,
            ));
            i += 1;
        }
    }
    assert(out@ + replaced(text@.skip(text@.len() as int), from@, to@) =~= out@);
    out
}

/// Transliterates `input`: replaces each pattern of the table in order,
/// drops the white space at the end, and adds the end-of-file mark on a
/// line of its own.
pub fn translate_to_emoji_lang(input: &str) -> (output: String)
    ensures
        output@ == translated(input@),
{
    let mut text = chars_of(input);
    let mut i: usize = 0;
    while i < 34
        invariant
            i <= patterns(),
            text@ == substituted(input@, i as nat),
        decreases patterns() - i,
    {
        let pair = entry(i);
        let from = chars_of(pair.0);
        let to = chars_of(pair.1);
        text = replace(&text, &from, &to);
        i += 1;
    }
    let ghost whole = text@;
    while text.len() > 0 && is_whitespace(text[text.len() - 1])
        invariant
            trimmed_end(text@) == trimmed_end(whole),
        decreases text@.len(),
    {
        text.pop();
    }
    let mut output = text_of(&text);
    output.append("\n🔚\n");
    output
}

} // verus!
