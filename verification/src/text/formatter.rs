//! A text formatter that converts case or capitalises words.

use vstd::prelude::*;
use crate::strings::{
    char_to_uppercase, is_whitespace, is_ws, join, join_strings, push_char, string_from_chars, to_chars,
    to_lowercase, to_uppercase, unicode_char_uppercase, unicode_lowercase, unicode_uppercase, views,
};

verus! {

/// Text formatting options.
#[derive(Debug, Clone, Copy)]
pub enum Format {
    /// Convert text to uppercase
    Uppercase,
    /// Convert text to lowercase
    Lowercase,
    /// Capitalise the first letter of each word
    Capitalise,
}

/// Errors of text formatting.
#[derive(Debug)]
pub enum FormatterError {
    /// The input text was empty
    EmptyInput,
    /// The text contains invalid UTF-8 characters (a `&str` never does, so
    /// `format` never reports it)
    InvalidEncoding,
}

impl FormatterError {
    /// The text that describes the error.
    pub fn message(&self) -> (m: String)
        ensures
            match self {
                FormatterError::EmptyInput => m@ == "Input text cannot be empty"@,
                FormatterError::InvalidEncoding => m@ == "Text contains invalid UTF-8 characters"@,
            },
    {
        match self {
            FormatterError::EmptyInput => String::from_str("Input text cannot be empty"),
            FormatterError::InvalidEncoding => String::from_str("Text contains invalid UTF-8 characters"),
        }
    }
}

/// A text formatter that applies one format.
#[derive(Debug, Clone, Copy)]
pub struct TextFormatter {
    format: Format,
}

/// Whether every character is ASCII.
pub open spec fn all_ascii(s: Seq<char>) -> bool {
    forall|i: int| 0 <= i < s.len() ==> (s[i] as u32) < 128
}

/// The uppercase of an ASCII character.
pub open spec fn upper(c: char) -> char {
    if 'a' <= c && c <= 'z' { ((c as u32) - 32) as char } else { c }
}

/// The lowercase of an ASCII character.
pub open spec fn lower(c: char) -> char {
    if 'A' <= c && c <= 'Z' { ((c as u32) + 32) as char } else { c }
}

/// Each character uppercased.
pub open spec fn uppercase(s: Seq<char>) -> Seq<char> {
    s.map_values(|c: char| upper(c))
}

/// Each character lowercased.
pub open spec fn lowercase(s: Seq<char>) -> Seq<char> {
    s.map_values(|c: char| lower(c))
}

/// The words of `s` (its maximal runs of non-whitespace) joined by single
/// spaces, each with its first letter uppercased and the rest lowercased;
/// `in_word` tells whether the last character read belongs to a word and
/// `seen` whether a word has been read.
pub open spec fn capitalise_from(s: Seq<char>, k: int) -> (Seq<char>, bool, bool)
    decreases k,
{
    if k <= 0 {
        (Seq::empty(), false, false)
    } else {
        let (out, in_word, seen) = capitalise_from(s, k - 1);
        let c = s[k - 1];
        if is_ws(c) {
            (out, false, seen)
        } else if !in_word {
            (out + (if seen { " "@ } else { Seq::empty() }) + seq![upper(c)], true, true)
        } else {
            (out.push(lower(c)), true, seen)
        }
    }
}

/// `s` with each word capitalised and the words joined by single spaces.
pub open spec fn capitalise(s: Seq<char>) -> Seq<char> {
    capitalise_from(s, s.len() as int).0
}

/// The words of the first `k` characters of `s` that a whitespace has
/// closed, and the word still open after them.
pub open spec fn words_from(s: Seq<char>, k: int) -> (Seq<Seq<char>>, Seq<char>)
    decreases k,
{
    if k <= 0 {
        (Seq::empty(), Seq::empty())
    } else {
        let (closed, open) = words_from(s, k - 1);
        let c = s[k - 1];
        if !is_ws(c) {
            (closed, open.push(c))
        } else if open.len() > 0 {
            (closed.push(open), Seq::empty())
        } else {
            (closed, Seq::empty())
        }
    }
}

/// The words of `s`, as `str::split_whitespace` gives them: its maximal runs
/// of non-whitespace characters, in order.
pub open spec fn words(s: Seq<char>) -> Seq<Seq<char>> {
    let (closed, open) = words_from(s, s.len() as int);
    if open.len() > 0 { closed.push(open) } else { closed }
}

/// A word with its first character uppercased and the rest lowercased, by
/// the Unicode case mappings.
pub open spec fn capitalised_word(w: Seq<char>) -> Seq<char> {
    unicode_char_uppercase(w[0]) + unicode_lowercase(w.subrange(1, w.len() as int))
}

/// The words of `s`, each capitalised, joined by single spaces.
pub open spec fn capitalise_words(s: Seq<char>) -> Seq<char> {
    join(words(s).map_values(|w: Seq<char>| capitalised_word(w)), " "@)
}

/// What formatting `s` in `format` gives: an error for empty text; otherwise
/// the text uppercased, lowercased, or with its words capitalised and joined
/// by single spaces. ASCII text is mapped letter by letter, where the Unicode
/// mappings agree with the ASCII ones; other text goes through the Unicode
/// mappings of std.
pub open spec fn formatted(format: Format, s: Seq<char>) -> Result<Seq<char>, FormatterError> {
    if s.len() == 0 {
        Err(FormatterError::EmptyInput)
    } else {
        Ok(match format {
            Format::Uppercase => if all_ascii(s) { uppercase(s) } else { unicode_uppercase(s) },
            Format::Lowercase => if all_ascii(s) { lowercase(s) } else { unicode_lowercase(s) },
            Format::Capitalise => if all_ascii(s) { capitalise(s) } else { capitalise_words(s) },
        })
    }
}

/// Whether `r` is the outcome `expected` describes.
pub open spec fn format_outcome(r: Result<String, FormatterError>, expected: Result<Seq<char>, FormatterError>) -> bool {
    match expected {
        Ok(t) => r matches Ok(x) && x@ == t,
        Err(FormatterError::EmptyInput) => r matches Err(FormatterError::EmptyInput),
        Err(FormatterError::InvalidEncoding) => r matches Err(FormatterError::InvalidEncoding),
    }
}

fn upper_char(c: char) -> (u: char)
    ensures
        u == upper(c),
{
    if 'a' <= c && c <= 'z' {
        let code: u8 = ((c as u32) - 32) as u8;
        code as char
    } else {
        c
    }
}

fn lower_char(c: char) -> (l: char)
    ensures
        l == lower(c),
{
    if 'A' <= c && c <= 'Z' {
        let code: u8 = ((c as u32) + 32) as u8;
        code as char
    } else {
        c
    }
}

/// A word with its first character uppercased and the rest lowercased.
fn capitalise_word(w: &Vec<char>) -> (r: String)
    requires
        w@.len() > 0,
    ensures
        r@ == capitalised_word(w@),
{
    let mut r = char_to_uppercase(w[0]);
    let rest = string_from_chars(w, 1, w.len());
    let lowered = to_lowercase(rest.as_str());
    r.append(lowered.as_str());
    r
}

/// The words of `chars`, each capitalised, joined by single spaces.
fn capitalise_unicode(chars: &Vec<char>) -> (r: String)
    ensures
        r@ == capitalise_words(chars@),
{
    let ghost s = chars@;
    let mut done: Vec<String> = Vec::new();
    let mut open: Vec<char> = Vec::new();
    let mut k: usize = 0;
    assert(views(done@) =~= Seq::<Seq<char>>::empty().map_values(|w: Seq<char>| capitalised_word(w)));
    while k < chars.len()
        invariant
            k <= s.len(),
            s == chars@,
            views(done@) == words_from(s, k as int).0.map_values(|w: Seq<char>| capitalised_word(w)),
            open@ == words_from(s, k as int).1,
        decreases s.len() - k,
    {
        let c = chars[k];
        let ghost before = views(done@);
        let ghost closed = words_from(s, k as int).0;
        if !is_whitespace(c) {
            open.push(c);
        } else if open.len() > 0 {
            let w = capitalise_word(&open);
            done.push(w);
            assert(views(done@) =~= before.push(w@));
            assert(closed.push(open@).map_values(|w: Seq<char>| capitalised_word(w))
                =~= closed.map_values(|w: Seq<char>| capitalised_word(w)).push(capitalised_word(open@)));
            open = Vec::new();
        } else {
        }
        k = k + 1;
    }
    let ghost (closed, last) = words_from(s, s.len() as int);
    if open.len() > 0 {
        let w = capitalise_word(&open);
        let ghost before = views(done@);
        done.push(w);
        assert(views(done@) =~= before.push(w@));
        assert(closed.push(last).map_values(|w: Seq<char>| capitalised_word(w))
            =~= closed.map_values(|w: Seq<char>| capitalised_word(w)).push(capitalised_word(last)));
    }
    proof { reveal_strlit(" "); }
    join_strings(done.as_slice(), " ")
}

impl TextFormatter {
    /// A formatter that applies `format`.
    pub fn new(format: Format) -> (r: Self)
        ensures
            r.mode() == format,
    {
        TextFormatter { format }
    }

    /// The format this formatter applies.
    pub closed spec fn mode(self) -> Format {
        self.format
    }

    /// Formats `text`: an error for empty text; otherwise the text uppercased,
    /// lowercased, or with each word capitalised and the words joined by
    /// single spaces.
    pub fn format(&self, text: &str) -> (r: Result<String, FormatterError>)
        ensures
            format_outcome(r, formatted(self.mode(), text@)),
    {
        let chars = to_chars(text);
        if chars.len() == 0 {
            return Err(FormatterError::EmptyInput);
        }
        let mut i: usize = 0;
        while i < chars.len()
            invariant
                i <= chars@.len(),
                chars@ == text@,
                forall|j: int| 0 <= j < i ==> (chars@[j] as u32) < 128,
            decreases chars@.len() - i,
        {
            if (chars[i] as u32) >= 128 {
                assert(!all_ascii(text@)) by {
                    assert((text@[i as int] as u32) >= 128);
                }
                return Ok(match self.format {
                    Format::Uppercase => to_uppercase(text),
                    Format::Lowercase => to_lowercase(text),
                    Format::Capitalise => capitalise_unicode(&chars),
                });
            }
            i = i + 1;
        }
        let mut out = String::new();
        match self.format {
            Format::Uppercase => {
                let mut k: usize = 0;
                while k < chars.len()
                    invariant
                        k <= chars@.len(),
                        out@ == uppercase(chars@.subrange(0, k as int)),
                    decreases chars@.len() - k,
                {
                    push_char(&mut out, upper_char(chars[k]));
                    assert(uppercase(chars@.subrange(0, k + 1)) =~= uppercase(chars@.subrange(0, k as int)).push(upper(chars@[k as int])));
                    k = k + 1;
                }
                assert(chars@.subrange(0, chars@.len() as int) =~= chars@);
            },
            Format::Lowercase => {
                let mut k: usize = 0;
                while k < chars.len()
                    invariant
                        k <= chars@.len(),
                        out@ == lowercase(chars@.subrange(0, k as int)),
                    decreases chars@.len() - k,
                {
                    push_char(&mut out, lower_char(chars[k]));
                    assert(lowercase(chars@.subrange(0, k + 1)) =~= lowercase(chars@.subrange(0, k as int)).push(lower(chars@[k as int])));
                    k = k + 1;
                }
                assert(chars@.subrange(0, chars@.len() as int) =~= chars@);
            },
            Format::Capitalise => {
                let mut in_word = false;
                let mut seen = false;
                let mut k: usize = 0;
                while k < chars.len()
                    invariant
                        k <= chars@.len(),
                        (out@, in_word, seen) == capitalise_from(chars@, k as int),
                    decreases chars@.len() - k,
                {
                    let c = chars[k];
                    if is_whitespace(c) {
                        in_word = false;
                    } else if !in_word {
                        if seen {
                            out.append(" ");
                        }
                        push_char(&mut out, upper_char(c));
                        in_word = true;
                        seen = true;
                    } else {
                        push_char(&mut out, lower_char(c));
                    }
                    k = k + 1;
                }
            },
        }
        Ok(out)
    }

    /// Formats each chunk in order.
    pub fn format_all(&self, chunks: &Vec<&str>) -> (r: Vec<Result<String, FormatterError>>)
        ensures
            r@.len() == chunks@.len(),
            forall|i: int| 0 <= i < chunks@.len() ==> format_outcome(#[trigger] r@[i], formatted(self.mode(), chunks@[i]@)),
    {
        let mut r: Vec<Result<String, FormatterError>> = Vec::new();
        let mut i: usize = 0;
        while i < chunks.len()
            invariant
                i <= chunks@.len(),
                r@.len() == i,
                forall|j: int| 0 <= j < i ==> format_outcome(#[trigger] r@[j], formatted(self.mode(), chunks@[j]@)),
            decreases chunks@.len() - i,
        {
            r.push(self.format(chunks[i]));
            i = i + 1;
        }
        r
    }
}

/// A pending formatting of a sequence of chunks.
pub struct FormatStream<'a> {
    formatter: &'a TextFormatter,
    chunks: Vec<&'a str>,
}

impl<'a> FormatStream<'a> {
    /// A pending formatting of `chunks` with `formatter`.
    pub fn new(formatter: &'a TextFormatter, chunks: Vec<&'a str>) -> (s: Self)
        ensures
            s.formatter() == *formatter,
            s.chunks() == chunks@,
    {
        FormatStream { formatter, chunks }
    }

    /// The formatter the chunks are formatted with.
    pub closed spec fn formatter(self) -> TextFormatter {
        *self.formatter
    }

    /// The chunks to format.
    pub closed spec fn chunks(self) -> Seq<&'a str> {
        self.chunks@
    }

    /// The formatted chunks, in order.
    pub fn resolve(&self) -> (r: Vec<Result<String, FormatterError>>)
        ensures
            r@.len() == self.chunks().len(),
            forall|i: int| 0 <= i < self.chunks().len() ==> format_outcome(#[trigger] r@[i],
                formatted(self.formatter().mode(), self.chunks()[i]@)),
    {
        self.formatter.format_all(&self.chunks)
    }
}

} // verus!

verus! {

/// Uppercasing ASCII text is idempotent: formatting what uppercasing gave
/// yields it again.
pub proof fn lemma_uppercase_idempotent(s: Seq<char>)
    requires
        all_ascii(s),
    ensures
        formatted(Format::Uppercase, s) matches Ok(t) ==> formatted(Format::Uppercase, t) == Ok::<Seq<char>, FormatterError>(t),
{
    if let Ok(t) = formatted(Format::Uppercase, s) {
        assert(t == uppercase(s));
        assert(t.len() == s.len());
        assert forall|i: int| 0 <= i < t.len() implies (t[i] as u32) < 128 by {
            assert(t[i] == upper(s[i]));
            assert((s[i] as u32) < 128);
        }
        assert forall|i: int| 0 <= i < t.len() implies #[trigger] upper(t[i]) == t[i] by {
            assert(t[i] == upper(s[i]));
        }
        assert(uppercase(t) =~= t);
    }
}

/// Lowercasing ASCII text is idempotent: formatting what lowercasing gave
/// yields it again.
pub proof fn lemma_lowercase_idempotent(s: Seq<char>)
    requires
        all_ascii(s),
    ensures
        formatted(Format::Lowercase, s) matches Ok(t) ==> formatted(Format::Lowercase, t) == Ok::<Seq<char>, FormatterError>(t),
{
    if let Ok(t) = formatted(Format::Lowercase, s) {
        assert(t == lowercase(s));
        assert(t.len() == s.len());
        assert forall|i: int| 0 <= i < t.len() implies (t[i] as u32) < 128 by {
            assert(t[i] == lower(s[i]));
            assert((s[i] as u32) < 128);
        }
        assert forall|i: int| 0 <= i < t.len() implies #[trigger] lower(t[i]) == t[i] by {
            assert(t[i] == lower(s[i]));
        }
        assert(lowercase(t) =~= t);
    }
}

/// Uppercasing or lowercasing ASCII text keeps its length.
pub proof fn lemma_case_keeps_length(s: Seq<char>)
    requires
        all_ascii(s),
    ensures
        formatted(Format::Uppercase, s) matches Ok(t) ==> t.len() == s.len(),
        formatted(Format::Lowercase, s) matches Ok(t) ==> t.len() == s.len(),
{
}

} // verus!

verus! {

/// What capitalising reads of `s` before position `k` depends on nothing after it.
proof fn lemma_capitalise_prefix(a: Seq<char>, b: Seq<char>, k: int)
    requires
        0 <= k <= a.len(),
        k <= b.len(),
        forall|i: int| 0 <= i < k ==> a[i] == b[i],
    ensures
        capitalise_from(a, k) == capitalise_from(b, k),
    decreases k,
{
    if k > 0 {
        lemma_capitalise_prefix(a, b, k - 1);
    }
}

/// Changing the case of a character keeps it whitespace or not, and changing
/// it twice the same way changes nothing more.
proof fn lemma_case_of_char(c: char)
    ensures
        is_ws(upper(c)) == is_ws(c),
        is_ws(lower(c)) == is_ws(c),
        upper(upper(c)) == upper(c),
        lower(lower(c)) == lower(c),
        (c as u32) < 128 ==> (upper(c) as u32) < 128 && (lower(c) as u32) < 128,
{
}

/// Capitalising the first `k` characters: what was written so far reads back
/// unchanged, ends inside a word exactly when a word was seen, is empty when
/// none was, and stays ASCII for ASCII text.
proof fn lemma_capitalise_stable(s: Seq<char>, k: int)
    requires
        0 <= k <= s.len(),
    ensures
        ({
            let (out, in_word, seen) = capitalise_from(s, k);
            &&& capitalise_from(out, out.len() as int) == (out, seen, seen)
            &&& in_word ==> seen
            &&& !seen ==> out.len() == 0
            &&& all_ascii(s) ==> all_ascii(out)
        }),
    decreases k,
{
    if k > 0 {
        lemma_capitalise_stable(s, k - 1);
        let (prev, in_word, seen) = capitalise_from(s, k - 1);
        let c = s[k - 1];
        lemma_case_of_char(c);
        if is_ws(c) {
        } else if !in_word {
            let spaced = prev + (if seen { " "@ } else { Seq::<char>::empty() });
            let out = spaced + seq![upper(c)];
            assert(out.len() == spaced.len() + 1);
            lemma_capitalise_prefix(out, prev, prev.len() as int);
            if seen {
                reveal_strlit(" ");
                assert(spaced =~= prev.push(' '));
                lemma_capitalise_prefix(out, spaced, spaced.len() as int);
                assert(capitalise_from(spaced, spaced.len() as int) == (prev, false, true));
                assert(out =~= prev + " "@ + seq![upper(c)]);
            } else {
                assert(spaced =~= prev);
                assert(out =~= prev + Seq::<char>::empty() + seq![upper(c)]);
            }
            assert(out[out.len() - 1] == upper(c));
            if all_ascii(s) {
                assert((c as u32) < 128);
                assert forall|i: int| 0 <= i < out.len() implies (out[i] as u32) < 128 by {
                    if i < prev.len() {
                        assert(out[i] == prev[i]);
                    } else if i < spaced.len() {
                        assert(out[i] == ' ');
                    }
                }
            }
        } else {
            let out = prev.push(lower(c));
            lemma_capitalise_prefix(out, prev, prev.len() as int);
            assert(out[out.len() - 1] == lower(c));
            if all_ascii(s) {
                assert((c as u32) < 128);
                assert forall|i: int| 0 <= i < out.len() implies (out[i] as u32) < 128 by {
                    if i < prev.len() {
                        assert(out[i] == prev[i]);
                    }
                }
            }
        }
    }
}

/// Capitalising ASCII text is idempotent: formatting what capitalising gave,
/// when it gave some text, yields that text again.
pub proof fn lemma_capitalise_idempotent(s: Seq<char>)
    requires
        all_ascii(s),
    ensures
        formatted(Format::Capitalise, s) matches Ok(t)
            ==> (t.len() > 0 ==> formatted(Format::Capitalise, t) == Ok::<Seq<char>, FormatterError>(t)),
{
    if let Ok(t) = formatted(Format::Capitalise, s) {
        lemma_capitalise_stable(s, s.len() as int);
    }
}

/// Formatting ASCII text is idempotent in every format: formatting what it
/// gave, when it gave some text, yields that text again.
pub proof fn lemma_format_idempotent(format: Format, s: Seq<char>)
    requires
        all_ascii(s),
    ensures
        formatted(format, s) matches Ok(t) ==> (t.len() > 0 ==> formatted(format, t) == Ok::<Seq<char>, FormatterError>(t)),
{
    match format {
        Format::Uppercase => lemma_uppercase_idempotent(s),
        Format::Lowercase => lemma_lowercase_idempotent(s),
        Format::Capitalise => lemma_capitalise_idempotent(s),
    }
}

/// An ASCII word with its first letter uppercased and the rest lowercased.
pub open spec fn ascii_capitalised_word(w: Seq<char>) -> Seq<char> {
    seq![upper(w[0])] + lowercase(w.subrange(1, w.len() as int))
}

/// The capitalised words closed so far, and the open one if any.
spec fn capitalised_so_far(closed: Seq<Seq<char>>, open: Seq<char>) -> Seq<Seq<char>> {
    closed.map_values(|w: Seq<char>| ascii_capitalised_word(w))
        + if open.len() > 0 { seq![ascii_capitalised_word(open)] } else { Seq::<Seq<char>>::empty() }
}

/// Adding a character to the last part adds it to the end of the joined text.
proof fn lemma_join_extend_last(ps: Seq<Seq<char>>, a: Seq<char>, c: char, sep: Seq<char>)
    ensures
        join(ps.push(a), sep).push(c) == join(ps.push(a.push(c)), sep),
{
    assert(ps.push(a).drop_last() =~= ps);
    assert(ps.push(a.push(c)).drop_last() =~= ps);
    if ps.len() == 0 {
        assert(ps.push(a)[0] == a);
        assert(ps.push(a.push(c))[0] == a.push(c));
    } else {
        assert((join(ps, sep) + sep + a).push(c) =~= join(ps, sep) + sep + a.push(c));
    }
}

/// Capitalising the first `k` characters writes the capitalised words found
/// so far, joined by single spaces; it is inside a word exactly when a word is
/// open, and has seen a word exactly when one was found.
proof fn lemma_capitalise_as_words_from(s: Seq<char>, k: int)
    requires
        0 <= k <= s.len(),
    ensures
        ({
            let (out, in_word, seen) = capitalise_from(s, k);
            let (closed, open) = words_from(s, k);
            &&& in_word == (open.len() > 0)
            &&& seen == (closed.len() > 0 || open.len() > 0)
            &&& out == join(capitalised_so_far(closed, open), " "@)
        }),
    decreases k,
{
    reveal_strlit(" ");
    if k == 0 {
        assert(capitalised_so_far(Seq::empty(), Seq::empty()) =~= Seq::<Seq<char>>::empty());
    } else {
        lemma_capitalise_as_words_from(s, k - 1);
        let (out, in_word, seen) = capitalise_from(s, k - 1);
        let (closed, open) = words_from(s, k - 1);
        let c = s[k - 1];
        let done = closed.map_values(|w: Seq<char>| ascii_capitalised_word(w));
        if is_ws(c) {
            if open.len() > 0 {
                assert(closed.push(open).map_values(|w: Seq<char>| ascii_capitalised_word(w))
                    =~= done.push(ascii_capitalised_word(open)));
                assert(capitalised_so_far(closed.push(open), Seq::empty()) =~= capitalised_so_far(closed, open));
            }
        } else if open.len() > 0 {
            let o2 = open.push(c);
            assert(o2.subrange(1, o2.len() as int) =~= open.subrange(1, open.len() as int).push(c));
            assert(lowercase(o2.subrange(1, o2.len() as int)) =~= lowercase(open.subrange(1, open.len() as int)).push(lower(c)));
            assert(ascii_capitalised_word(o2) =~= ascii_capitalised_word(open).push(lower(c)));
            assert(capitalised_so_far(closed, open) =~= done.push(ascii_capitalised_word(open)));
            assert(capitalised_so_far(closed, o2) =~= done.push(ascii_capitalised_word(open).push(lower(c))));
            lemma_join_extend_last(done, ascii_capitalised_word(open), lower(c), " "@);
        } else {
            let o2 = seq![c];
            assert(open.push(c) =~= o2);
            assert(o2.subrange(1, 1) =~= Seq::<char>::empty());
            assert(lowercase(Seq::<char>::empty()) =~= Seq::<char>::empty());
            assert(ascii_capitalised_word(o2) =~= seq![upper(c)]);
            assert(capitalised_so_far(closed, open) =~= done);
            assert(capitalised_so_far(closed, o2) =~= done.push(seq![upper(c)]));
            assert(done.push(seq![upper(c)]).drop_last() =~= done);
            if closed.len() == 0 {
                assert(done.push(seq![upper(c)])[0] == seq![upper(c)]);
                assert(out =~= Seq::<char>::empty());
                assert(out + Seq::<char>::empty() + seq![upper(c)] =~= seq![upper(c)]);
            } else {
                assert(done.len() > 0);
            }
        }
    }
}

/// Capitalising is splitting the text on whitespace, capitalising each word
/// (first letter uppercased, the rest lowercased) and joining the words with
/// single spaces.
pub proof fn lemma_capitalise_is_word_by_word(s: Seq<char>)
    ensures
        capitalise(s) == join(words(s).map_values(|w: Seq<char>| ascii_capitalised_word(w)), " "@),
{
    lemma_capitalise_as_words_from(s, s.len() as int);
    let (closed, open) = words_from(s, s.len() as int);
    if open.len() > 0 {
        assert(closed.push(open).map_values(|w: Seq<char>| ascii_capitalised_word(w))
            =~= capitalised_so_far(closed, open));
    } else {
        assert(closed.map_values(|w: Seq<char>| ascii_capitalised_word(w)) =~= capitalised_so_far(closed, open));
    }
}

} // verus!
