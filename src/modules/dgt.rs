//! DGT-TM, the translation memories of the European Commission: zip archives of TMX files,
//! UTF-16 encoded, from which the segments of one language are extracted.
use vstd::prelude::*;

use crate::document::{xml_events, xml_events_of, XmlEvt};
use crate::input_source::{PositionType, TransformationError};
use crate::text::{char_from_u32, chars_of, len_utf8, string_of, utf8_size};
use crate::textfilter::RETURN_ESCAPE_SEQUENCE;

verus! {

/// The size in bytes up to which text is collected from one TMX file.
pub const MAX_BUFFER_SIZE: usize = 1048576;

/// The UTF-16 code units of `b`, read two bytes at a time, low byte first.
pub open spec fn le_units(b: Seq<u8>) -> Seq<u16> {
    Seq::new(b.len() / 2, |k: int| (b[2 * k] as int + 256 * b[2 * k + 1] as int) as u16)
}

/// The code points that the UTF-16 code units `us` encode, or `None` where a surrogate is not
/// paired.
pub open spec fn utf16_codes(us: Seq<u16>) -> Option<Seq<u32>>
    decreases us.len(),
{
    if us.len() == 0 {
        Some(Seq::empty())
    } else {
        let u = us[0] as u32;
        if u < 0xD800 || u > 0xDFFF {
            match utf16_codes(us.subrange(1, us.len() as int)) {
                Some(r) => Some(seq![u] + r),
                None => None,
            }
        } else if u <= 0xDBFF && us.len() >= 2 && 0xDC00 <= us[1] && us[1] <= 0xDFFF {
            let code = (0x10000 + (u - 0xD800) * 0x400 + (us[1] as u32 - 0xDC00)) as u32;
            match utf16_codes(us.subrange(2, us.len() as int)) {
                Some(r) => Some(seq![code] + r),
                None => None,
            }
        } else {
            None
        }
    }
}

/// The code points of the text in the bytes `b`: UTF-16, low byte first, after a byte-order mark
/// if there is one. `None` for an odd number of bytes or an unpaired surrogate.
pub open spec fn utf16_text(b: Seq<u8>) -> Option<Seq<u32>> {
    if b.len() % 2 == 1 {
        None
    } else {
        let us = le_units(b);
        let body = if us.len() > 0 && us[0] == 0xFEFF {
            us.subrange(1, us.len() as int)
        } else {
            us
        };
        utf16_codes(body)
    }
}

/// The code points of `s`.
pub open spec fn codes(s: Seq<char>) -> Seq<u32> {
    s.map_values(|c: char| c as u32)
}

/// Decodes a UTF-16 text, low byte first, dropping a leading byte-order mark. It fails with an
/// encoding error for an odd number of bytes or an unpaired surrogate.
pub fn decode_utf16(raw: &Vec<u8>) -> (r: Result<String, TransformationError>)
    ensures
        match utf16_text(raw@) {
            Some(cs) => r matches Ok(s) && codes(s@) == cs,
            None => r matches Err(TransformationError::EncodingError(_, _)),
        },
{
    if raw.len() % 2 == 1 {
        return Err(
            TransformationError::EncodingError(
                String::from_str("input data could not be decoded as UTF-16: odd byte count"),
                PositionType::Unknown,
            ),
        );
    }
    let n = raw.len() / 2;
    let mut units: Vec<u16> = Vec::new();
    let mut k: usize = 0;
    while k < n
        invariant
            0 <= k <= n,
            n == raw.len() / 2,
            raw.len() % 2 == 0,
            units@ == le_units(raw@).take(k as int),
        decreases n - k,
    {
        let u = (raw[2 * k] as u16) + (raw[2 * k + 1] as u16) * 256;
        units.push(u);
        k = k + 1;
        assert(units@ =~= le_units(raw@).take(k as int));
    }
    assert(le_units(raw@).take(n as int) =~= le_units(raw@));
    let mut i: usize = 0;
    if units.len() > 0 && units[0] == 0xFEFF {
        i = 1;
    }
    let ghost body = units@.subrange(i as int, units@.len() as int);
    assert(utf16_text(raw@) == utf16_codes(body));
    let mut out: Vec<char> = Vec::new();
    let ghost start = i;
    while i < units.len()
        invariant
            start <= i <= units.len(),
            body == units@.subrange(start as int, units@.len() as int),
            utf16_text(raw@) == utf16_codes(body),
            utf16_codes(body) == match utf16_codes(units@.subrange(i as int, units@.len() as int)) {
                Some(r) => Some(codes(out@) + r),
                None => None::<Seq<u32>>,
            },
        decreases units.len() - i,
    {
        let ghost rest = units@.subrange(i as int, units@.len() as int);
        let u = units[i] as u32;
        if u < 0xD800 || u > 0xDFFF {
            let c = match char_from_u32(u) {
                Some(c) => c,
                None => {
                    return Err(
                        TransformationError::EncodingError(
                            String::from_str("invalid UTF-16 text"),
                            PositionType::Unknown,
                        ),
                    );
                },
            };
            assert(rest.subrange(1, rest.len() as int) == units@.subrange(i + 1, units@.len() as int));
            out.push(c);
            assert(codes(out@) =~= codes(out@.drop_last()) + seq![u]) by {
                assert(out@.drop_last().push(c) == out@);
            }
            i = i + 1;
        } else if u <= 0xDBFF && i + 1 < units.len() && 0xDC00 <= units[i + 1] && units[i + 1] <= 0xDFFF {
            let lo = units[i + 1] as u32;
            assert((u - 0xD800) * 0x400 <= 0x3FF * 0x400) by (nonlinear_arith)
                requires
                    0xD800 <= u <= 0xDBFF,
            ;
            let code = 0x10000 + (u - 0xD800) * 0x400 + (lo - 0xDC00);
            let c = match char_from_u32(code) {
                Some(c) => c,
                None => {
                    return Err(
                        TransformationError::EncodingError(
                            String::from_str("invalid UTF-16 text"),
                            PositionType::Unknown,
                        ),
                    );
                },
            };
            assert(rest.subrange(2, rest.len() as int) == units@.subrange(i + 2, units@.len() as int));
            out.push(c);
            assert(codes(out@) =~= codes(out@.drop_last()) + seq![code]) by {
                assert(out@.drop_last().push(c) == out@);
            }
            i = i + 2;
        } else {
            assert(rest[0] == units@[i as int]);
            assert(rest.len() >= 2 ==> rest[1] == units@[i + 1]);
            assert(utf16_codes(rest) is None);
            return Err(
                TransformationError::EncodingError(
                    String::from_str("invalid UTF-16 text"),
                    PositionType::Unknown,
                ),
            );
        }
    }
    assert(codes(out@) + Seq::<u32>::empty() == codes(out@));
    Ok(string_of(&out))
}

/// Whether the attributes hold `lang` with the value `language`.
pub open spec fn has_language(attrs: Seq<(String, String)>, language: Seq<char>) -> bool {
    exists|i: int| 0 <= i < attrs.len() && #[trigger] attrs[i].0@ == "lang"@ && attrs[i].1@ == language
}

/// The state of the scan of a TMX file.
pub struct TmxState {
    /// Inside a translation unit variant (`tuv`) in the requested language.
    pub inside: bool,
    /// The text collected so far.
    pub out: Seq<char>,
    /// The collected text reached `MAX_BUFFER_SIZE`: the rest of the file is ignored.
    pub full: bool,
}

/// The state after one more event. A `tuv` in the requested language starts collecting; the end
/// of its segment (`seg`) stops it and writes a context-break marker; text and white space are
/// collected in between.
pub open spec fn tmx_step(st: TmxState, ev: XmlEvt, language: Seq<char>) -> TmxState {
    if st.full {
        st
    } else {
        match ev {
            XmlEvt::Start(name, attrs) => if name@ == "tuv"@ && has_language(attrs@, language) {
                TmxState { inside: true, ..st }
            } else {
                st
            },
            XmlEvt::End(name) => if name@ == "seg"@ && st.inside {
                TmxState { inside: false, out: st.out + seq![' ', RETURN_ESCAPE_SEQUENCE, ' '], ..st }
            } else {
                st
            },
            XmlEvt::Characters(t) => if st.inside {
                let o = st.out + t@;
                TmxState { out: o, full: utf8_size(o) >= MAX_BUFFER_SIZE, ..st }
            } else {
                st
            },
            XmlEvt::Whitespace(t) => if st.inside {
                TmxState { out: st.out + t@, ..st }
            } else {
                st
            },
            XmlEvt::Other => st,
        }
    }
}

/// The state after the events `evs`, from `st`.
pub open spec fn tmx_run(st: TmxState, evs: Seq<XmlEvt>, language: Seq<char>) -> TmxState
    decreases evs.len(),
{
    if evs.len() == 0 {
        st
    } else {
        tmx_step(tmx_run(st, evs.drop_last(), language), evs.last(), language)
    }
}

/// The state before the first event, with `out` collected already.
pub open spec fn tmx_start(out: Seq<char>) -> TmxState {
    TmxState { inside: false, out, full: false }
}

/// The smaller of `a` and `MAX_BUFFER_SIZE`.
pub open spec fn capped(a: nat) -> nat {
    if a < MAX_BUFFER_SIZE {
        a
    } else {
        MAX_BUFFER_SIZE as nat
    }
}

/// Appends the characters of `t` to `out`, keeping `size` as the capped UTF-8 size of `out`.
fn append_counted(out: &mut Vec<char>, size: &mut usize, t: &str)
    requires
        *old(size) == capped(utf8_size(old(out)@)),
    ensures
        final(out)@ == old(out)@ + t@,
        *final(size) == capped(utf8_size(final(out)@)),
{
    let cs = chars_of(t);
    let mut i: usize = 0;
    while i < cs.len()
        invariant
            0 <= i <= cs.len(),
            out@ == old(out)@ + cs@.take(i as int),
            *size == capped(utf8_size(out@)),
        decreases cs.len() - i,
    {
        let c = cs[i];
        let ghost before = out@;
        out.push(c);
        assert(out@.drop_last() == before);
        let w = len_utf8(c);
        if *size < MAX_BUFFER_SIZE - w {
            *size = *size + w;
        } else {
            *size = MAX_BUFFER_SIZE;
        }
        i = i + 1;
        assert(cs@.take(i as int) == cs@.take(i - 1 as int).push(c));
    }
    assert(cs@.take(cs.len() as int) == cs@);
}

/// Whether the attributes hold `lang` with the value `language`.
fn find_language(attrs: &Vec<(String, String)>, language: &String) -> (r: bool)
    ensures
        r == has_language(attrs@, language@),
{
    let lang = String::from_str("lang");
    let mut i: usize = 0;
    while i < attrs.len()
        invariant
            0 <= i <= attrs.len(),
            lang@ == "lang"@,
            forall|j: int| 0 <= j < i ==> !(#[trigger] attrs@[j].0@ == "lang"@ && attrs@[j].1@ == language@),
        decreases attrs.len() - i,
    {
        if attrs[i].0 == lang && attrs[i].1 == *language {
            return true;
        }
        i = i + 1;
    }
    false
}

/// Collects the text of the segments in `language` from the events of a TMX file, appending
/// it to `output`; see `tmx_step`. Returns whether all events were read, which is not the case
/// once the collected text reaches `MAX_BUFFER_SIZE` bytes.
pub fn collect_segments(events: &Vec<XmlEvt>, language: &str, output: &mut String) -> (complete: bool)
    ensures
        final(output)@ == tmx_run(tmx_start(old(output)@), events@, language@).out,
        complete == !tmx_run(tmx_start(old(output)@), events@, language@).full,
{
    let lang = String::from_str(language);
    let tuv = String::from_str("tuv");
    let seg = String::from_str("seg");
    let ghost start = tmx_start(output@);
    let mut out = chars_of(output.as_str());
    let mut size: usize = 0;
    let mut k: usize = 0;
    while k < out.len()
        invariant
            0 <= k <= out.len(),
            size == capped(utf8_size(out@.take(k as int))),
        decreases out.len() - k,
    {
        assert(out@.take(k + 1 as int).drop_last() == out@.take(k as int));
        let w = len_utf8(out[k]);
        if size < MAX_BUFFER_SIZE - w {
            size = size + w;
        } else {
            size = MAX_BUFFER_SIZE;
        }
        k = k + 1;
    }
    assert(out@.take(out.len() as int) == out@);
    let mut inside = false;
    let mut full = false;
    let mut i: usize = 0;
    while i < events.len()
        invariant
            0 <= i <= events.len(),
            lang@ == language@,
            tuv@ == "tuv"@,
            seg@ == "seg"@,
            size == capped(utf8_size(out@)),
            tmx_run(start, events@.take(i as int), language@) == (TmxState { inside, out: out@, full }),
        decreases events.len() - i,
    {
        assert(events@.take(i + 1 as int).drop_last() == events@.take(i as int));
        assert(events@.take(i + 1 as int).last() == events@[i as int]);
        let ghost st = TmxState { inside, out: out@, full };
        if !full {
            match &events[i] {
                XmlEvt::Start(name, attrs) => {
                    if *name == tuv && find_language(attrs, &lang) {
                        inside = true;
                    }
                },
                XmlEvt::End(name) => {
                    if *name == seg && inside {
                        inside = false;
                        proof {
                            reveal_strlit(" \x07 ");
                            assert(" \x07 "@ =~= seq![' ', RETURN_ESCAPE_SEQUENCE, ' ']);
                        }
                        append_counted(&mut out, &mut size, " \x07 ");
                    }
                    assert(TmxState { inside, out: out@, full } == tmx_step(st, events@[i as int], language@));
                },
                XmlEvt::Characters(t) => {
                    if inside {
                        append_counted(&mut out, &mut size, t.as_str());
                        full = size >= MAX_BUFFER_SIZE;
                    }
                },
                XmlEvt::Whitespace(t) => {
                    if inside {
                        append_counted(&mut out, &mut size, t.as_str());
                    }
                },
                XmlEvt::Other => {},
            }
        }
        i = i + 1;
    }
    assert(events@.take(events.len() as int) == events@);
    *output = string_of(&out);
    !full
}

/// Collects the text of the segments in `language` from a TMX file, appending it to `output`;
/// see `collect_segments`. It fails with an XML error where the file is not valid XML and the
/// error comes before the collected text reaches `MAX_BUFFER_SIZE` bytes.
pub fn parse_xml(xml: &str, language: &str, output: &mut String) -> (r: Result<(), TransformationError>)
    ensures
        ({
            let (evs, failed) = xml_events_of(xml@);
            let end = tmx_run(tmx_start(old(output)@), evs, language@);
            &&& final(output)@ == end.out
            &&& if failed && !end.full {
                r matches Err(TransformationError::XmlParserERrror(_, _))
            } else {
                r is Ok
            }
        }),
{
    let (events, error) = xml_events(xml);
    let complete = collect_segments(&events, language, output);
    match error {
        Some(e) => {
            if complete {
                Err(TransformationError::XmlParserERrror(e, PositionType::Unknown))
            } else {
                Ok(())
            }
        },
        None => Ok(()),
    }
}

/// A chunk of collected text as the corpus takes it: nothing for no text, and text that ends
/// a line otherwise.
pub fn finish_chunk(text: String) -> (r: Option<String>)
    ensures
        text@.len() == 0 ==> r is None,
        text@.len() > 0 ==> (r matches Some(s) && s@ == if text@.last() == '\n' {
            text@
        } else {
            text@.push('\n')
        }),
{
    let mut cs = chars_of(text.as_str());
    let n = cs.len();
    if n == 0 {
        return None;
    }
    if cs[n - 1] != '\n' {
        cs.push('\n');
    }
    Some(string_of(&cs))
}

/// What the reader of the archives does next.
#[derive(Clone, Copy, Debug, PartialEq, Eq, Structural)]
pub enum DgtAction {
    /// Open the next archive, and report how many entries it has; stop when there is none.
    OpenNextArchive,
    /// Read, decode and scan the entry with this index in the open archive.
    ReadEntry(usize),
}

/// Where the reader of the archives stands: an archive is open or not, and the index of the
/// next entry to read in it.
pub struct DgtCursor {
    archive_open: bool,
    zip_entry: usize,
    zip_entry_count: usize,
}

impl DgtCursor {
    pub closed spec fn is_open(&self) -> bool {
        self.archive_open
    }

    pub closed spec fn entry(&self) -> nat {
        self.zip_entry as nat
    }

    pub closed spec fn entry_count(&self) -> nat {
        self.zip_entry_count as nat
    }

    /// Before the first archive.
    pub fn new() -> (r: DgtCursor)
        ensures
            !r.is_open(),
            r.entry() == 0,
    {
        DgtCursor { archive_open: false, zip_entry: 0, zip_entry_count: 0 }
    }

    /// The next step: open an archive when none is open or the open one is exhausted (closing
    /// it), and otherwise read its next entry. The entry index moves on before the entry is
    /// read, so that an entry that fails is not read again.
    pub fn next_action(&mut self) -> (a: DgtAction)
        ensures
            a matches DgtAction::ReadEntry(i) ==> old(self).is_open() && i == old(self).entry()
                && i < old(self).entry_count() && final(self).is_open() && final(self).entry() == i
                + 1 && final(self).entry_count() == old(self).entry_count(),
            a is OpenNextArchive ==> !final(self).is_open() && (!old(self).is_open()
                || old(self).entry() >= old(self).entry_count()),
    {
        if !self.archive_open {
            return DgtAction::OpenNextArchive;
        }
        if self.zip_entry >= self.zip_entry_count {
            self.archive_open = false;
            return DgtAction::OpenNextArchive;
        }
        self.zip_entry = self.zip_entry + 1;
        DgtAction::ReadEntry(self.zip_entry - 1)
    }

    /// An archive with `count` entries was opened: its entries are read from the first.
    pub fn archive_opened(&mut self, count: usize)
        ensures
            final(self).is_open(),
            final(self).entry() == 0,
            final(self).entry_count() == count,
    {
        self.archive_open = true;
        self.zip_entry = 0;
        self.zip_entry_count = count;
    }
}

/// The ISO 639-1 code of the language whose ISO 639-3 code is `code3`, if it has one.
pub uninterp spec fn iso_639_1_of(code3: Seq<char>) -> Option<Seq<char>>;

/// Relies on isolang's `Language::from_639_3` and `Language::to_639_1`: the two-letter code of
/// the language with the given three-letter code, when the language is known and has one.
#[verifier::external_body]
fn two_letter_code(code3: &str) -> (r: Option<String>)
    ensures
        r matches Some(c) ==> iso_639_1_of(code3@) == Some(c@),
        r is None ==> iso_639_1_of(code3@) is None,
{
    isolang::Language::from_639_3(code3).and_then(|l| l.to_639_1()).map(|c| c.to_string())
}

/// The DGT-TM source.
pub struct Dgt;

impl Dgt {
    /// The two-letter code under which DGT-TM files name the language with the three-letter
    /// code `code3`; see `requested_language`.
    pub fn language_code(code3: &str) -> (r: Result<String, TransformationError>)
        ensures
            match iso_639_1_of(code3@) {
                Some(c) => r matches Ok(s) && s@ == c,
                None => r matches Err(TransformationError::InvalidLanguageError(l, _, _)) && l@
                    == code3@,
            },
    {
        requested_language(code3)
    }
}

/// The two-letter code under which DGT-TM files name the language with the three-letter code
/// `code3`. It fails with an invalid-language error, holding the code, where the language is
/// unknown or has no two-letter code.
pub fn requested_language(code3: &str) -> (r: Result<String, TransformationError>)
    ensures
        match iso_639_1_of(code3@) {
            Some(c) => r matches Ok(s) && s@ == c,
            None => r matches Err(TransformationError::InvalidLanguageError(l, _, _)) && l@
                == code3@,
        },
{
    match two_letter_code(code3) {
        Some(c) => Ok(c),
        None => Err(
            TransformationError::InvalidLanguageError(
                String::from_str(code3),
                String::from_str("the language has no ISO 639-1 two-letter code"),
                PositionType::Unknown,
            ),
        ),
    }
}

} // verus!
