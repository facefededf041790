//! Helpers of the code generator: which extensions sit behind a feature,
//! the header of an emitted file, and the conversion of CamelCase
//! identifiers to snake_case.

use vstd::prelude::*;
use vstd::string::StrSliceExecFns;
use vstd::string::StringExecFns;

verus! {

/// Whether `c` is one of `A` to `Z`.
pub open spec fn is_upper(c: char) -> bool {
    'A' <= c && c <= 'Z'
}

/// Whether `c` is one of `a` to `z` or `0` to `9`.
pub open spec fn is_lower_or_digit(c: char) -> bool {
    ('a' <= c && c <= 'z') || ('0' <= c && c <= '9')
}

/// Whether `c` can stand inside a word.
pub open spec fn is_word_char(c: char) -> bool {
    is_upper(c) || is_lower_or_digit(c)
}

/// Whether `s` is made of ASCII letters, digits and underscores alone.
pub open spec fn is_identifier(s: Seq<char>) -> bool {
    forall|i: int| 0 <= i < s.len() ==> is_word_char(#[trigger] s[i]) || s[i] == '_'
}

/// Whether a word begins at index `i` of `s`: at a word character that
/// comes first, or follows a character that is none, or is an upper-case
/// letter after a lower-case letter or digit, or is the last of a run of
/// upper-case letters and is followed by a lower-case letter or digit.
pub open spec fn is_word_start(s: Seq<char>, i: int) -> bool
    recommends
        0 <= i < s.len(),
{
    is_word_char(s[i]) && (i == 0 || !is_word_char(s[i - 1]) || (is_upper(s[i]) && (
    is_lower_or_digit(s[i - 1]) || (i + 1 < s.len() && is_lower_or_digit(s[i + 1])))))
}

/// The snake_case form of the first `n` characters of `s`: its word
/// characters in order, with one underscore before each word but the
/// first.
pub open spec fn snake_prefix(s: Seq<char>, n: nat) -> Seq<char>
    recommends
        n <= s.len(),
    decreases n,
{
    if n == 0 {
        Seq::empty()
    } else {
        let before = snake_prefix(s, (n - 1) as nat);
        let i = n - 1;
        if !is_word_char(s[i]) {
            before
        } else if is_word_start(s, i) && before.len() > 0 {
            before.push('_').push(s[i])
        } else {
            before.push(s[i])
        }
    }
}

/// The snake_case form of `s`.
pub open spec fn snake_case(s: Seq<char>) -> Seq<char> {
    snake_prefix(s, s.len())
}

/// Whether a scan for the next word may begin at `start`: the end, a
/// character outside words, or the first character of a word.
pub open spec fn is_boundary(s: Seq<char>, start: int) -> bool {
    start == s.len() || !is_word_char(s[start]) || is_word_start(s, start)
}

/// Whether `begin..end` is the first word of `s` at or after `start`.
pub open spec fn is_next_word(s: Seq<char>, start: int, begin: int, end: int) -> bool {
    &&& 0 <= start <= begin < end <= s.len()
    &&& forall|j: int| start <= j < begin ==> !is_word_char(#[trigger] s[j])
    &&& forall|j: int| begin <= j < end ==> is_word_char(#[trigger] s[j])
    &&& forall|j: int| begin < j < end ==> !is_word_start(s, j)
    &&& is_boundary(s, end)
}

/// What the matcher has seen of the word it is in.
enum State {
    Begin,
    /// One upper-case letter.
    OneUpper(usize),
    /// One upper-case letter, then lower-case letters or digits.
    OneUpperThenLowerOrDigit(usize),
    /// Two or more upper-case letters.
    ManyUpper(usize),
    /// Lower-case letters or digits.
    LowerOrDigit(usize),
}

/// The kind of the character under the matcher.
enum CharClass {
    End,
    Upper,
    LowerOrDigit,
    Other,
}

/// What the matcher's state says of the characters from `start` up to
/// the one it looks at next, at index `i`.
spec fn state_holds(s: Seq<char>, start: int, state: State, i: int) -> bool {
    &&& 0 <= start <= i <= s.len()
    &&& match state {
        State::Begin => forall|j: int| start <= j < i ==> !is_word_char(#[trigger] s[j]),
        State::OneUpper(begin) => {
            &&& start <= begin
            &&& i == begin + 1
            &&& is_upper(s[begin as int])
            &&& forall|j: int| start <= j < begin ==> !is_word_char(#[trigger] s[j])
        },
        State::OneUpperThenLowerOrDigit(begin) => {
            &&& start <= begin
            &&& begin + 2 <= i
            &&& is_upper(s[begin as int])
            &&& forall|j: int| start <= j < begin ==> !is_word_char(#[trigger] s[j])
            &&& forall|j: int| begin < j < i ==> is_lower_or_digit(#[trigger] s[j])
        },
        State::ManyUpper(begin) => {
            &&& start <= begin
            &&& begin + 2 <= i
            &&& forall|j: int| start <= j < begin ==> !is_word_char(#[trigger] s[j])
            &&& forall|j: int| begin <= j < i ==> is_upper(#[trigger] s[j])
        },
        State::LowerOrDigit(begin) => {
            &&& start <= begin
            &&& begin + 1 <= i
            &&& forall|j: int| start <= j < begin ==> !is_word_char(#[trigger] s[j])
            &&& forall|j: int| begin <= j < i ==> is_lower_or_digit(#[trigger] s[j])
        },
    }
}

/// The kind of the character at index `i` of `s`, whose length is `len`,
/// or `End` past the last.
fn class_at(s: &str, len: usize, i: usize) -> (r: CharClass)
    requires
        s.is_ascii(),
        len == s@.len(),
        i <= len,
    ensures
        match r {
            CharClass::End => i == s@.len(),
            CharClass::Upper => i < s@.len() && is_upper(s@[i as int]),
            CharClass::LowerOrDigit => i < s@.len() && is_lower_or_digit(s@[i as int]),
            CharClass::Other => i < s@.len() && !is_word_char(s@[i as int]),
        },
{
    if i >= len {
        return CharClass::End;
    }
    let b: u8 = s.get_ascii(i);
    if 65 <= b && b <= 90 {
        CharClass::Upper
    } else if (97 <= b && b <= 122) || (48 <= b && b <= 57) {
        CharClass::LowerOrDigit
    } else {
        CharClass::Other
    }
}

/// Finds the first word of `s`, whose length is `len`, at or after
/// `start`: one upper-case letter
/// followed by lower-case letters or digits, or a run of upper-case
/// letters not followed by a lower-case letter or digit, or a run of
/// lower-case letters and digits.
fn next_match(s: &str, len: usize, start: usize) -> (r: Option<(usize, usize)>)
    requires
        s.is_ascii(),
        len == s@.len(),
        start <= len,
        is_boundary(s@, start as int),
    ensures
        match r {
            Some((begin, end)) => is_next_word(s@, start as int, begin as int, end as int),
            None => forall|j: int| start <= j < s@.len() ==> !is_word_char(#[trigger] s@[j]),
        },
{
    let mut state = State::Begin;
    let mut chr_i: usize = start;
    loop
        invariant
            s.is_ascii(),
            len == s@.len(),
            is_boundary(s@, start as int),
            state_holds(s@, start as int, state, chr_i as int),
        decreases s@.len() - chr_i,
    {
        let chr = class_at(s, len, chr_i);
        match state {
            State::Begin => match chr {
                CharClass::End => { return None; },
                CharClass::Upper => { state = State::OneUpper(chr_i); },
                CharClass::LowerOrDigit => { state = State::LowerOrDigit(chr_i); },
                CharClass::Other => { state = State::Begin; },
            },
            State::OneUpper(begin_i) => match chr {
                CharClass::Upper => { state = State::ManyUpper(begin_i); },
                CharClass::LowerOrDigit => { state = State::OneUpperThenLowerOrDigit(begin_i); },
                _ => { return Some((begin_i, chr_i)); },
            },
            State::OneUpperThenLowerOrDigit(begin_i) => match chr {
                CharClass::LowerOrDigit => { state = State::OneUpperThenLowerOrDigit(begin_i); },
                _ => { return Some((begin_i, chr_i)); },
            },
            State::ManyUpper(begin_i) => match chr {
                CharClass::Upper => { state = State::ManyUpper(begin_i); },
                CharClass::LowerOrDigit => { return Some((begin_i, chr_i - 1)); },
                _ => { return Some((begin_i, chr_i)); },
            },
            State::LowerOrDigit(begin_i) => match chr {
                CharClass::LowerOrDigit => { state = State::LowerOrDigit(begin_i); },
                _ => { return Some((begin_i, chr_i)); },
            },
        }
        chr_i += 1;
    }
}

/// Characters outside words add nothing to the snake_case form.
proof fn lemma_gap(s: Seq<char>, from: int, to: int)
    requires
        0 <= from <= to <= s.len(),
        forall|j: int| from <= j < to ==> !is_word_char(#[trigger] s[j]),
    ensures
        snake_prefix(s, to as nat) == snake_prefix(s, from as nat),
    decreases to - from,
{
    if from < to {
        lemma_gap(s, from, to - 1);
    }
}

/// The characters of a word after its first follow one another in the
/// snake_case form with nothing between them.
proof fn lemma_word(s: Seq<char>, begin: int, end: int)
    requires
        0 <= begin < end <= s.len(),
        forall|j: int| begin <= j < end ==> is_word_char(#[trigger] s[j]),
        forall|j: int| begin < j < end ==> !is_word_start(s, j),
    ensures
        snake_prefix(s, end as nat) == snake_prefix(s, (begin + 1) as nat) + s.subrange(
            begin + 1,
            end,
        ),
    decreases end - begin,
{
    if begin + 1 < end {
        lemma_word(s, begin, end - 1);
        assert(s.subrange(begin + 1, end) =~= s.subrange(begin + 1, end - 1).push(s[end - 1]));
        assert(is_word_char(s[end - 1]));
        assert(snake_prefix(s, end as nat) =~= snake_prefix(s, (end - 1) as nat).push(s[end - 1]));
    } else {
        assert(s.subrange(begin + 1, end) =~= Seq::<char>::empty());
    }
}

/// Converts a CamelCase identifier to snake_case without changing the
/// case of its letters: its words, in order, with one underscore between
/// neighbours.
pub fn camel_case_to_snake(arg: &str) -> (r: String)
    requires
        is_identifier(arg@),
    ensures
        r@ == snake_case(arg@),
{
    let len = arg.unicode_len();
    let mut r = String::new();
    let mut pos: usize = 0;
    loop
        invariant
            arg.is_ascii(),
            len == arg@.len(),
            pos <= len,
            is_boundary(arg@, pos as int),
            r@ == snake_prefix(arg@, pos as nat),
        ensures
            r@ == snake_case(arg@),
        decreases len - pos,
    {
        match next_match(arg, len, pos) {
            Some((begin, end)) => {
                let match_str = arg.substring_ascii(begin, end);
                proof {
                    reveal_strlit("_");
                    lemma_gap(arg@, pos as int, begin as int);
                    lemma_word(arg@, begin as int, end as int);
                    assert(is_word_char(arg@[begin as int]));
                    if begin > pos {
                        assert(!is_word_char(arg@[begin - 1]));
                    }
                    assert(is_word_start(arg@, begin as int));
                    assert(arg@.subrange(begin as int, end as int) =~= seq![arg@[begin as int]]
                        + arg@.subrange(begin + 1, end as int));
                }
                if !r.as_str().is_empty() {
                    r.append("_");
                    assert(r@ =~= snake_prefix(arg@, pos as nat).push('_'));
                }
                r.append(match_str);
                assert(r@ =~= snake_prefix(arg@, end as nat));
                pos = end;
            },
            None => {
                proof {
                    lemma_gap(arg@, pos as int, len as int);
                }
                break ;
            },
        }
    }
    r
}

/// The lower-case form of an ASCII upper-case letter; any other character
/// unchanged.
pub open spec fn ascii_lower(c: char) -> char {
    if 'A' <= c && c <= 'Z' {
        ((c as u8) + 32) as char
    } else {
        c
    }
}

/// The upper-case form of an ASCII lower-case letter; any other character
/// unchanged.
pub open spec fn ascii_upper(c: char) -> char {
    if 'a' <= c && c <= 'z' {
        ((c as u8) - 32) as char
    } else {
        c
    }
}

/// `str::make_ascii_lowercase` of the standard library, on an owned
/// string: every letter `A` to `Z` becomes `a` to `z` in place, and
/// every other character stays.
#[verifier::external_body]
fn make_ascii_lowercase(s: &mut String)
    ensures
        final(s)@ == old(s)@.map_values(|c: char| ascii_lower(c)),
{
    s.make_ascii_lowercase();
}

/// `str::make_ascii_uppercase` of the standard library, on an owned
/// string: every letter `a` to `z` becomes `A` to `Z` in place, and
/// every other character stays.
#[verifier::external_body]
fn make_ascii_uppercase(s: &mut String)
    ensures
        final(s)@ == old(s)@.map_values(|c: char| ascii_upper(c)),
{
    s.make_ascii_uppercase();
}

/// Converts a CamelCase identifier to lower-case snake_case.
pub fn camel_case_to_lower_snake(arg: &str) -> (r: String)
    requires
        is_identifier(arg@),
    ensures
        r@ == snake_case(arg@).map_values(|c: char| ascii_lower(c)),
{
    let mut r = camel_case_to_snake(arg);
    make_ascii_lowercase(&mut r);
    r
}

/// Converts a CamelCase identifier to upper-case snake_case.
pub fn camel_case_to_upper_snake(arg: &str) -> (r: String)
    requires
        is_identifier(arg@),
    ensures
        r@ == snake_case(arg@).map_values(|c: char| ascii_upper(c)),
{
    let mut r = camel_case_to_snake(arg);
    make_ascii_uppercase(&mut r);
    r
}

/// Whether `arg` is made of ASCII letters, digits and underscores alone,
/// as the conversions to snake_case ask of their argument.
pub fn is_identifier_str(arg: &str) -> (r: bool)
    ensures
        r == is_identifier(arg@),
{
    if !arg.is_ascii() {
        proof {
            let i = choose|i: int| 0 <= i < arg@.len() && !('\0' <= #[trigger] arg@[i] <= '\u{7f}');
            assert(!is_word_char(arg@[i]) && arg@[i] != '_');
        }
        return false;
    }
    let len = arg.unicode_len();
    let mut i: usize = 0;
    while i < len
        invariant
            arg.is_ascii(),
            len == arg@.len(),
            i <= len,
            forall|j: int| 0 <= j < i ==> is_word_char(#[trigger] arg@[j]) || arg@[j] == '_',
        decreases len - i,
    {
        let b: u8 = arg.get_ascii(i);
        let ok = (65 <= b && b <= 90) || (97 <= b && b <= 122) || (48 <= b && b <= 57) || b == 95;
        if !ok {
            assert(!(is_word_char(arg@[i as int]) || arg@[i as int] == '_'));
            return false;
        }
        i += 1;
    }
    true
}

/// Whether two strings hold the same text.
fn same_text(a: &str, b: &str) -> (r: bool)
    ensures
        r == (a@ == b@),
{
    a.to_owned() == b.to_owned()
}

/// Whether the module of the extension `name` is emitted behind a
/// feature of its own: all are, but the four that every build needs.
pub open spec fn has_feature(name: Seq<char>) -> bool {
    !(name == "bigreq"@ || name == "ge"@ || name == "xc_misc"@ || name == "xproto"@)
}

/// Whether the module of the extension `name` is emitted behind a
/// feature of its own.
pub fn ext_has_feature(name: &str) -> (r: bool)
    ensures
        r == has_feature(name@),
{
    if same_text(name, "bigreq") || same_text(name, "ge") || same_text(name, "xc_misc")
        || same_text(name, "xproto") {
        false
    } else {
        true
    }
}

/// Text under construction, line by line.
pub struct Output {
    data: String,
}

impl View for Output {
    type V = Seq<char>;

    closed spec fn view(&self) -> Seq<char> {
        self.data@
    }
}

impl Output {
    /// An empty text.
    pub fn new() -> (r: Self)
        ensures
            r@ == Seq::<char>::empty(),
    {
        Output { data: String::new() }
    }

    /// Adds `line` and a line break to the text.
    pub fn outln(&mut self, line: &str)
        ensures
            final(self)@ == old(self)@ + line@ + seq!['\n'],
    {
        self.data.append(line);
        self.data.append("\n");
        proof {
            reveal_strlit("\n");
            assert("\n"@ =~= seq!['\n']);
        }
    }

    /// Adds `text` as it is.
    pub fn out(&mut self, text: &str)
        ensures
            final(self)@ == old(self)@ + text@,
    {
        self.data.append(text);
    }

    /// The text written so far.
    pub fn into_data(self) -> (r: String)
        ensures
            r@ == self@,
    {
        self.data
    }
}

/// The header of every emitted file: two comment lines and an empty one.
pub open spec fn code_header() -> Seq<char> {
    "// This file contains generated code. Do not edit directly."@ + seq!['\n']
        + "// To regenerate this, run 'make'."@ + seq!['\n'] + seq!['\n']
}

/// Adds the header that marks a file as emitted by the generator.
pub fn write_code_header(out: &mut Output)
    ensures
        final(out)@ == old(out)@ + code_header(),
{
    out.outln("// This file contains generated code. Do not edit directly.");
    out.outln("// To regenerate this, run 'make'.");
    out.outln("");
    proof {
        reveal_strlit("");
        assert(""@ =~= Seq::<char>::empty());
        assert(out@ =~= old(out)@ + code_header());
    }
}

} // verus!
