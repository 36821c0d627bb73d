//! Project Gutenberg books: the text between the start and the end marker, without the
//! front matter.
use vstd::prelude::*;

use crate::input_source::{Entity, InputFormat, PositionType, TransformationError, Unformatter};
use crate::text::{chars_of, first_occurrence, find_from, string_of};

verus! {

/// How many paragraphs of front matter follow the start marker.
pub const SKIPPED_PARAGRAPHS: usize = 10;

/// The marker before a book's text.
pub open spec fn start_marker() -> Seq<char> {
    "*** START"@
}

/// The markers after a book's text; the earliest that occurs ends it. A bare `"*** END"` ends
/// a book too, right before its asterisks.
pub open spec fn end_markers() -> Seq<Seq<char>> {
    seq![
        "\nEnd of the Project Gutenberg"@,
        "\nEnd of this Project Gutenberg"@,
        "\nEnd of the project Gutenberg"@,
        "\nEnd of this project Gutenberg"@,
        "\n***END OF "@,
        "\n*** END OF "@,
        "*** END"@,
    ]
}

/// Where the text after the front matter starts, looking for paragraph breaks from `pos` with
/// `count` paragraphs already skipped: just after the break that starts the tenth paragraph.
/// A paragraph break is `"\n\n"` followed by a character other than a line break. `None` when
/// the text ends first.
pub open spec fn skip_from(s: Seq<char>, pos: int, count: int) -> Option<int>
    decreases s.len() - pos,
{
    match first_occurrence(s, "\n\n"@, pos) {
        None => None,
        Some(f) => {
            let p = f + 2;
            if p >= s.len() || p <= pos {
                None
            } else {
                let n = if s[p] != '\n' { count + 1 } else { count };
                if n >= SKIPPED_PARAGRAPHS {
                    Some(p)
                } else {
                    skip_from(s, p, n)
                }
            }
        },
    }
}

/// The earlier of two optional positions.
pub open spec fn earlier(a: Option<int>, b: Option<int>) -> Option<int> {
    match (a, b) {
        (None, _) => b,
        (Some(x), None) => Some(x),
        (Some(x), Some(y)) => Some(if x <= y { x } else { y }),
    }
}

/// The earliest position in `s` where one of `markers` occurs.
pub open spec fn earliest(s: Seq<char>, markers: Seq<Seq<char>>) -> Option<int>
    decreases markers.len(),
{
    if markers.len() == 0 {
        None
    } else {
        earlier(earliest(s, markers.drop_last()), first_occurrence(s, markers.last(), 0))
    }
}

/// `s` with each `"--"`, from left to right, replaced by a space.
pub open spec fn dashes_replaced(s: Seq<char>) -> Seq<char>
    decreases s.len(),
{
    if s.len() < 2 {
        s
    } else if s[0] == '-' && s[1] == '-' {
        seq![' '] + dashes_replaced(s.subrange(2, s.len() as int))
    } else {
        seq![s[0]] + dashes_replaced(s.subrange(1, s.len() as int))
    }
}

/// The text of a book: it starts at the line break after the start marker, moves past ten
/// paragraphs where there are that many, and ends before the earliest end marker; `"--"`
/// becomes a space. `None` where a marker or the line break is missing.
pub open spec fn book_text(s: Seq<char>) -> Option<Seq<char>> {
    match first_occurrence(s, start_marker(), 0) {
        None => None,
        Some(a) => match first_occurrence(s, "\n"@, a) {
            None => None,
            Some(b) => {
                let rest = s.subrange(b, s.len() as int);
                let st = match skip_from(rest, 0, 0) {
                    Some(k) => b + k,
                    None => b,
                };
                match earliest(s.subrange(st, s.len() as int), end_markers()) {
                    None => None,
                    Some(e) => Some(dashes_replaced(s.subrange(st, st + e))),
                }
            },
        },
    }
}

/// Where the text after the first ten paragraphs starts in `input`, if it has that many.
fn skip_first_paragraphs(input: &Vec<char>) -> (r: Option<usize>)
    ensures
        r matches Some(k) ==> skip_from(input@, 0, 0) == Some(k as int),
        r is None ==> skip_from(input@, 0, 0) is None,
{
    let brk = chars_of("\n\n");
    proof {
        reveal_strlit("\n\n");
    }
    let mut skipped: usize = 0;
    let mut start_pos: usize = 0;
    while start_pos < input.len()
        invariant
            brk@ == "\n\n"@,
            skipped < SKIPPED_PARAGRAPHS,
            start_pos <= input.len(),
            skip_from(input@, 0, 0) == skip_from(input@, start_pos as int, skipped as int),
        decreases input.len() - start_pos,
    {
        match find_from(input, &brk, start_pos) {
            None => {
                return None;
            },
            Some(pos) => {
                proof {
                    reveal_strlit("\n\n");
                    lemma_occurrence_fits(input@, brk@, start_pos as int);
                    assert(brk@.len() == 2);
                    assert(pos + 2 <= input@.len());
                }
                let p = pos + 2;
                if p >= input.len() {
                    return None;
                }
                if input[p] != '\n' {
                    skipped = skipped + 1;
                }
                if skipped >= SKIPPED_PARAGRAPHS {
                    return Some(p);
                }
                start_pos = p;
            },
        }
    }
    assert(first_occurrence(input@, "\n\n"@, start_pos as int) is None);
    None
}

/// A found occurrence lies within the text, at or after where the search began.
proof fn lemma_occurrence_fits(s: Seq<char>, pat: Seq<char>, from: int)
    ensures
        first_occurrence(s, pat, from) matches Some(f) ==> from <= f && f + pat.len() <= s.len(),
    decreases s.len() + 1 - from,
{
    if from < 0 || from + pat.len() > s.len() {
    } else if !crate::text::occurs_at(s, pat, from) {
        lemma_occurrence_fits(s, pat, from + 1);
    }
}

/// The position in `content` of the earliest end marker.
fn find_end_of_book(content: &Vec<char>) -> (r: Option<usize>)
    ensures
        r matches Some(e) ==> earliest(content@, end_markers()) == Some(e as int),
        r is None ==> earliest(content@, end_markers()) is None,
{
    let markers: Vec<Vec<char>> = vec![
        chars_of("\nEnd of the Project Gutenberg"),
        chars_of("\nEnd of this Project Gutenberg"),
        chars_of("\nEnd of the project Gutenberg"),
        chars_of("\nEnd of this project Gutenberg"),
        chars_of("\n***END OF "),
        chars_of("\n*** END OF "),
        chars_of("*** END"),
    ];
    let ghost ms = end_markers();
    assert(markers@.len() == ms.len());
    assert(forall|k: int| 0 <= k < ms.len() ==> #[trigger] markers@[k]@ == ms[k]);
    let mut best: Option<usize> = None;
    let mut k: usize = 0;
    while k < markers.len()
        invariant
            0 <= k <= markers.len(),
            markers@.len() == ms.len(),
            ms == end_markers(),
            forall|j: int| 0 <= j < ms.len() ==> #[trigger] markers@[j]@ == ms[j],
            earliest(content@, ms.take(k as int)) == match best {
                Some(b) => Some(b as int),
                None => None::<int>,
            },
        decreases markers.len() - k,
    {
        let found = find_from(content, &markers[k], 0);
        assert(ms.take(k + 1 as int).drop_last() == ms.take(k as int));
        assert(ms.take(k + 1 as int).last() == ms[k as int]);
        best = match (best, found) {
            (None, f) => f,
            (Some(b), None) => Some(b),
            (Some(b), Some(f)) => Some(if b <= f { b } else { f }),
        };
        k = k + 1;
    }
    assert(ms.take(ms.len() as int) == ms);
    best
}

/// `s` from `from` to `to`, with each `"--"` replaced by a space.
fn replace_dashes(s: &Vec<char>, from: usize, to: usize) -> (r: String)
    requires
        from <= to <= s.len(),
    ensures
        r@ == dashes_replaced(s@.subrange(from as int, to as int)),
{
    let mut out: Vec<char> = Vec::new();
    let mut i = from;
    while i < to
        invariant
            from <= i <= to,
            to <= s.len(),
            dashes_replaced(s@.subrange(from as int, to as int)) == out@ + dashes_replaced(
                s@.subrange(i as int, to as int),
            ),
        decreases to - i,
    {
        let ghost rest = s@.subrange(i as int, to as int);
        if i + 1 < to && s[i] == '-' && s[i + 1] == '-' {
            assert(rest.subrange(2, rest.len() as int) == s@.subrange(i + 2, to as int));
            out.push(' ');
            i = i + 2;
        } else {
            assert(rest.subrange(1, rest.len() as int) == s@.subrange(i + 1, to as int));
            out.push(s[i]);
            i = i + 1;
        }
    }
    assert(s@.subrange(i as int, to as int).len() == 0);
    string_of(&out)
}

/// Project Gutenberg books, in plain text.
pub struct Gutenberg;

impl Gutenberg {
    /// The text of the book in `input`, keeping its position; see `book_text`. It fails with a
    /// structural error at the entity's position where the start marker, the line break after
    /// it, or every end marker is missing.
    pub fn preprocess_book(&self, input: &Entity) -> (r: Result<Entity, TransformationError>)
        ensures
            match (r, book_text(input.content@)) {
                (Ok(e), Some(t)) => e.content@ == t && e.position == input.position,
                (Err(e), None) => (e matches TransformationError::ErrorneousStructure(_, p)
                    && p == input.position),
                _ => false,
            },
    {
        let content = chars_of(input.content.as_str());
        let start_marker = chars_of("*** START");
        let newline = chars_of("\n");
        proof {
            reveal_strlit("\n");
        }
        let a = match find_from(&content, &start_marker, 0) {
            Some(a) => a,
            None => {
                return Err(
                    TransformationError::ErrorneousStructure(
                        String::from_str("no start delimiter found"),
                        input.position.duplicate(),
                    ),
                );
            },
        };
        let b = match find_from(&content, &newline, a) {
            Some(b) => b,
            None => {
                return Err(
                    TransformationError::ErrorneousStructure(
                        String::from_str("no newline after the start delimiter"),
                        input.position.duplicate(),
                    ),
                );
            },
        };
        proof {
            lemma_occurrence_fits(content@, newline@, a as int);
            assert(b < content@.len());
        }
        let rest = slice_from(&content, b);
        let start = match skip_first_paragraphs(&rest) {
            Some(k) => {
                proof {
                    lemma_skip_fits(rest@, 0, 0);
                    assert(k <= rest@.len());
                }
                b + k
            },
            None => b,
        };
        let tail = slice_from(&content, start);
        assert(tail@ == content@.subrange(start as int, content@.len() as int));
        let end = match find_end_of_book(&tail) {
            Some(e) => e,
            None => {
                let mut err = TransformationError::ErrorneousStructure(
                    String::from_str("no end delimiter found"),
                    PositionType::Unknown,
                );
                err.inject_position(input.position.duplicate());
                return Err(err);
            },
        };
        proof {
            lemma_earliest_fits(tail@, end_markers());
            assert(end <= tail@.len());
        }
        let text = replace_dashes(&content, start, start + end);
        Ok(Entity { content: text, position: input.position.duplicate() })
    }
}

impl Unformatter for Gutenberg {
    open spec fn needs_preprocessing(&self) -> bool {
        true
    }

    open spec fn markup(&self) -> InputFormat {
        InputFormat::Markdown
    }

    open spec fn preprocessed_text(&self, content: Seq<char>) -> Option<Seq<char>> {
        book_text(content)
    }

    fn is_preprocessing_required(&self) -> bool {
        true
    }

    fn get_input_format(&self) -> InputFormat {
        InputFormat::Markdown
    }

    fn preprocess(&self, input: &Entity) -> Result<Entity, TransformationError> {
        self.preprocess_book(input)
    }
}

/// The characters of `s` from `from` on.
fn slice_from(s: &Vec<char>, from: usize) -> (r: Vec<char>)
    requires
        from <= s.len(),
    ensures
        r@ == s@.subrange(from as int, s@.len() as int),
{
    let mut out: Vec<char> = Vec::new();
    let mut i = from;
    while i < s.len()
        invariant
            from <= i <= s.len(),
            out@ == s@.subrange(from as int, i as int),
        decreases s.len() - i,
    {
        out.push(s[i]);
        i = i + 1;
        assert(s@.subrange(from as int, i as int) == s@.subrange(from as int, i - 1 as int).push(s@[i - 1]));
    }
    out
}

/// The skip ends within the text.
proof fn lemma_skip_fits(s: Seq<char>, pos: int, count: int)
    ensures
        skip_from(s, pos, count) matches Some(k) ==> 0 <= k <= s.len(),
    decreases s.len() - pos,
{
    lemma_occurrence_fits(s, "\n\n"@, pos);
    match first_occurrence(s, "\n\n"@, pos) {
        None => {},
        Some(f) => {
            let p = f + 2;
            if p >= s.len() || p <= pos {
            } else {
                let n = if s[p] != '\n' { count + 1 } else { count };
                if n < SKIPPED_PARAGRAPHS {
                    lemma_skip_fits(s, p, n);
                }
            }
        },
    }
}

/// The earliest end marker lies within the text.
proof fn lemma_earliest_fits(s: Seq<char>, markers: Seq<Seq<char>>)
    ensures
        earliest(s, markers) matches Some(e) ==> 0 <= e <= s.len(),
    decreases markers.len(),
{
    if markers.len() > 0 {
        lemma_earliest_fits(s, markers.drop_last());
        lemma_occurrence_fits(s, markers.last(), 0);
    }
}

} // verus!
