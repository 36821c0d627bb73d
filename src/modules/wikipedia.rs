//! MediaWiki markup: a character-level preprocessor that removes tables and references, and
//! drops blockquote tags while keeping their text.
use vstd::prelude::*;

use crate::document::XmlEvt;
use crate::input_source::{Entity, InputFormat, PositionType, TransformationError, Unformatter};
use crate::text::{append_chars, append_str, chars_of, push_chars, string_of};

verus! {

/// The characters that open and close a MediaWiki table (`{|`, `|}`, and the same reversed).
pub open spec fn is_table(c: char) -> bool {
    c == '|' || c == '{' || c == '}'
}

/// The state of the preprocessor between two characters.
pub struct ScanState {
    /// Inside a table or a reference: text is dropped.
    pub ignore: bool,
    /// A `<` was seen and its tag is not closed yet.
    pub tag: bool,
    /// The character before.
    pub prev: char,
    /// The output so far.
    pub out: Seq<char>,
    /// The name and attributes of the open tag, read so far.
    pub buf: Seq<char>,
}

/// The state before the first character.
pub open spec fn initial_state() -> ScanState {
    ScanState { ignore: false, tag: false, prev: 'a', out: Seq::empty(), buf: Seq::empty() }
}

/// Whether output `out` stands at the start of a line, as far as a table opened by the
/// character just written can tell.
pub open spec fn at_line_start(out: Seq<char>) -> bool {
    out.len() < 2 || out[out.len() - 2] == '\n'
}

/// `c` is `t`, or its ASCII capital.
pub open spec fn same_letter(c: char, t: char) -> bool {
    c == t || ('A' <= c && c <= 'Z' && c as u32 + 32 == t as u32)
}

/// `buf` starts with `tag`, letters compared without regard to case.
pub open spec fn starts_with_tag(buf: Seq<char>, tag: Seq<char>) -> bool {
    buf.len() >= tag.len() && forall|i: int| 0 <= i < tag.len() ==> #[trigger] same_letter(buf[i], tag[i])
}

/// A table character: the second of two different table characters opens a table at the start
/// of a line, and closes one anywhere.
pub open spec fn on_table_char(st: ScanState, c: char) -> ScanState {
    if is_table(st.prev) && st.prev != c {
        if st.ignore {
            ScanState { ignore: false, ..st }
        } else if at_line_start(st.out) {
            let out = if st.out.len() > 0 && st.out.last() == st.prev {
                st.out.drop_last()
            } else {
                st.out
            };
            ScanState { ignore: true, out, ..st }
        } else {
            ScanState { out: st.out.push(c), ..st }
        }
    } else if !st.ignore {
        ScanState { out: st.out.push(c), ..st }
    } else {
        st
    }
}

/// A `>`: closes an open tag. A reference starts or ends ignoring, a blockquote tag is dropped,
/// any other tag is written back. A `>` outside a tag is text.
pub open spec fn on_tag_close(st: ScanState) -> ScanState {
    if !st.tag {
        if !st.ignore {
            ScanState { out: st.out.push('>'), ..st }
        } else {
            st
        }
    } else {
        let closed = ScanState { tag: false, buf: Seq::empty(), ..st };
        if starts_with_tag(st.buf, seq!['r', 'e', 'f']) {
            ScanState { ignore: true, ..closed }
        } else if starts_with_tag(st.buf, seq!['/', 'r', 'e', 'f']) {
            ScanState { ignore: false, ..closed }
        } else if starts_with_tag(st.buf, seq!['/', 'b', 'l', 'o', 'c', 'k', 'q', 'u', 'o', 't', 'e'])
            || starts_with_tag(st.buf, seq!['b', 'l', 'o', 'c', 'k', 'q', 'u', 'o', 't', 'e']) {
            closed
        } else {
            ScanState { out: st.out + seq!['<'] + st.buf + seq!['>'], ..closed }
        }
    }
}

/// A character that may start the name of a tag that matters (`blockquote`, `ref`, or a
/// closing one).
pub open spec fn may_start_tag(c: char) -> bool {
    c == 'b' || c == 'B' || c == 'r' || c == 'R' || c == '/'
}

/// Any other character: dropped while ignoring, read into the tag when one is open, written
/// otherwise. A `<` followed by a character that starts no tag that matters is text.
pub open spec fn on_other_char(st: ScanState, c: char) -> ScanState {
    if st.ignore && !st.tag {
        st
    } else if st.tag {
        if st.prev == '<' && !may_start_tag(c) {
            ScanState { out: st.out.push('<').push(c), tag: false, ..st }
        } else {
            ScanState { buf: st.buf.push(c), ..st }
        }
    } else {
        ScanState { out: st.out.push(c), ..st }
    }
}

/// The state after one more character.
pub open spec fn step(st: ScanState, c: char) -> ScanState {
    let next = if is_table(c) {
        on_table_char(st, c)
    } else if c == '<' {
        ScanState { tag: true, ..st }
    } else if c == '>' {
        on_tag_close(st)
    } else {
        on_other_char(st, c)
    };
    ScanState { prev: c, ..next }
}

/// The state after the characters `s`, from `st`.
pub open spec fn run(st: ScanState, s: Seq<char>) -> ScanState
    decreases s.len(),
{
    if s.len() == 0 {
        st
    } else {
        step(run(st, s.drop_last()), s.last())
    }
}

/// The message of the error for a tag left open.
pub open spec fn unclosed_tag_message(buf: Seq<char>) -> Seq<char> {
    "text after opening <: "@ + buf
}

/// The preprocessed text of `s`, or `None` where a tag is left open at the end.
pub open spec fn preprocessed(s: Seq<char>) -> Option<Seq<char>> {
    let end = run(initial_state(), s);
    if end.tag {
        None
    } else {
        Some(end.out)
    }
}

/// Text that ends with a `<` leaves a tag open, so preprocessing it fails.
pub proof fn lemma_trailing_open_tag_fails(s: Seq<char>)
    ensures
        preprocessed(s.push('<')) is None,
{
    assert(s.push('<').drop_last() == s);
}

/// Text without markup characters: no table character, no `<`, no `>`.
pub open spec fn is_plain(s: Seq<char>) -> bool {
    forall|i: int| 0 <= i < s.len() ==> !is_table(#[trigger] s[i]) && s[i] != '<' && s[i] != '>'
}

/// Scanning `x + y` is scanning `x`, then `y` from where `x` left off.
proof fn lemma_run_concat(st: ScanState, x: Seq<char>, y: Seq<char>)
    ensures
        run(st, x + y) == run(run(st, x), y),
    decreases y.len(),
{
    if y.len() == 0 {
        assert(x + y =~= x);
    } else {
        lemma_run_concat(st, x, y.drop_last());
        assert((x + y).drop_last() =~= x + y.drop_last());
        assert((x + y).last() == y.last());
    }
}

/// Text without markup, outside any tag, is copied to the output, or dropped while ignoring.
proof fn lemma_run_plain(st: ScanState, s: Seq<char>)
    requires
        is_plain(s),
        !st.tag,
    ensures
        run(st, s).out == if st.ignore {
            st.out
        } else {
            st.out + s
        },
        run(st, s).ignore == st.ignore,
        !run(st, s).tag,
        run(st, s).buf == st.buf,
        run(st, s).prev == if s.len() == 0 {
            st.prev
        } else {
            s.last()
        },
    decreases s.len(),
{
    if s.len() == 0 {
        assert(st.out + s =~= st.out);
    } else {
        let s1 = s.drop_last();
        assert forall|i: int| 0 <= i < s1.len() implies !is_table(#[trigger] s1[i]) && s1[i] != '<'
            && s1[i] != '>' by {
            assert(s1[i] == s[i]);
        }
        lemma_run_plain(st, s1);
        assert(!is_table(s[s.len() - 1]) && s[s.len() - 1] != '<' && s[s.len() - 1] != '>');
        assert(st.out + s1.push(s.last()) =~= st.out + s);
        assert(s1.push(s.last()) =~= s);
    }
}

/// A reference, with everything inside it, is removed: `a<ref>b</ref>c` becomes `ac` for text
/// without markup.
pub proof fn lemma_references_are_removed(a: Seq<char>, b: Seq<char>, c: Seq<char>)
    requires
        is_plain(a),
        is_plain(b),
        is_plain(c),
    ensures
        preprocessed(a + seq!['<', 'r', 'e', 'f', '>'] + b + seq!['<', '/', 'r', 'e', 'f', '>'] + c)
            == Some(a + c),
{
    let open = seq!['<', 'r', 'e', 'f', '>'];
    let close = seq!['<', '/', 'r', 'e', 'f', '>'];
    let init = initial_state();
    lemma_run_plain(init, a);
    let s1 = run(init, a);
    lemma_run_concat(init, a, open);
    assert(open.drop_last() =~= seq!['<', 'r', 'e', 'f']);
    assert(seq!['<', 'r', 'e', 'f'].drop_last() =~= seq!['<', 'r', 'e']);
    assert(seq!['<', 'r', 'e'].drop_last() =~= seq!['<', 'r']);
    assert(seq!['<', 'r'].drop_last() =~= seq!['<']);
    assert(seq!['<'].drop_last() =~= Seq::<char>::empty());
    assert(run(s1, Seq::<char>::empty()) == s1);
    let r1 = run(s1, seq!['<']);
    assert(r1.tag && !r1.ignore && r1.out == a && r1.buf == s1.buf && r1.prev == '<');
    let r2 = run(s1, seq!['<', 'r']);
    assert(r2.tag && !r2.ignore && r2.out == a && r2.buf =~= seq!['r'] && r2.prev == 'r');
    let r3 = run(s1, seq!['<', 'r', 'e']);
    assert(r3.tag && !r3.ignore && r3.out == a && r3.buf =~= seq!['r', 'e']);
    let r4 = run(s1, seq!['<', 'r', 'e', 'f']);
    assert(r4.tag && !r4.ignore && r4.out == a && r4.buf =~= seq!['r', 'e', 'f']);
    let s2 = run(s1, open);
    assert(starts_with_tag(seq!['r', 'e', 'f'], seq!['r', 'e', 'f']));
    assert(s2.ignore && !s2.tag && s2.out == a && s2.buf =~= Seq::<char>::empty());
    lemma_run_concat(init, a + open, b);
    lemma_run_plain(s2, b);
    let s3 = run(s2, b);
    lemma_run_concat(init, a + open + b, close);
    assert(close.drop_last() =~= seq!['<', '/', 'r', 'e', 'f']);
    assert(seq!['<', '/', 'r', 'e', 'f'].drop_last() =~= seq!['<', '/', 'r', 'e']);
    assert(seq!['<', '/', 'r', 'e'].drop_last() =~= seq!['<', '/', 'r']);
    assert(seq!['<', '/', 'r'].drop_last() =~= seq!['<', '/']);
    assert(seq!['<', '/'].drop_last() =~= seq!['<']);
    assert(run(s3, Seq::<char>::empty()) == s3);
    let q1 = run(s3, seq!['<']);
    assert(q1.tag && q1.ignore && q1.out == a && q1.buf == s3.buf && q1.prev == '<');
    let q2 = run(s3, seq!['<', '/']);
    assert(q2.tag && q2.ignore && q2.out == a && q2.buf =~= seq!['/']);
    let q3 = run(s3, seq!['<', '/', 'r']);
    assert(q3.tag && q3.ignore && q3.out == a && q3.buf =~= seq!['/', 'r']);
    let q4 = run(s3, seq!['<', '/', 'r', 'e']);
    assert(q4.tag && q4.ignore && q4.out == a && q4.buf =~= seq!['/', 'r', 'e']);
    let q5 = run(s3, seq!['<', '/', 'r', 'e', 'f']);
    assert(q5.tag && q5.ignore && q5.out == a && q5.buf =~= seq!['/', 'r', 'e', 'f']);
    let s4 = run(s3, close);
    assert(!same_letter('/', 'r'));
    assert(!starts_with_tag(seq!['/', 'r', 'e', 'f'], seq!['r', 'e', 'f']));
    assert(starts_with_tag(seq!['/', 'r', 'e', 'f'], seq!['/', 'r', 'e', 'f']));
    assert(!s4.ignore && !s4.tag && s4.out == a);
    lemma_run_concat(init, a + open + b + close, c);
    lemma_run_plain(s4, c);
}

/// A table opened at the start of a line is removed up to its end: `a` newline `{|` `b`
/// newline `|}` `c` becomes `a`, a newline and `c` for text without markup.
pub proof fn lemma_tables_are_removed(a: Seq<char>, b: Seq<char>, c: Seq<char>)
    requires
        is_plain(a),
        is_plain(b),
        is_plain(c),
    ensures
        preprocessed(a + seq!['\n', '{', '|'] + b + seq!['\n', '|', '}'] + c) == Some(
            a + seq!['\n'] + c,
        ),
{
    let open = seq!['\n', '{', '|'];
    let close = seq!['\n', '|', '}'];
    let init = initial_state();
    lemma_run_plain(init, a);
    let s1 = run(init, a);
    lemma_run_concat(init, a, open);
    assert(open.drop_last() =~= seq!['\n', '{']);
    assert(seq!['\n', '{'].drop_last() =~= seq!['\n']);
    assert(seq!['\n'].drop_last() =~= Seq::<char>::empty());
    assert(run(s1, Seq::<char>::empty()) == s1);
    let t1 = run(s1, seq!['\n']);
    assert(t1.out =~= a.push('\n') && t1.prev == '\n');
    let t2 = run(s1, seq!['\n', '{']);
    assert(t2.out =~= a.push('\n').push('{') && t2.prev == '{');
    assert(at_line_start(t2.out));
    let s2 = run(s1, open);
    assert(s2.out =~= a.push('\n'));
    assert(s2.ignore && !s2.tag && s2.prev == '|');
    lemma_run_concat(init, a + open, b);
    lemma_run_plain(s2, b);
    let s3 = run(s2, b);
    lemma_run_concat(init, a + open + b, close);
    assert(close.drop_last() =~= seq!['\n', '|']);
    assert(seq!['\n', '|'].drop_last() =~= seq!['\n']);
    assert(run(s3, Seq::<char>::empty()) == s3);
    let u1 = run(s3, seq!['\n']);
    assert(u1.ignore && !u1.tag && u1.out =~= a.push('\n') && u1.prev == '\n');
    let u2 = run(s3, seq!['\n', '|']);
    assert(u2.ignore && !u2.tag && u2.out =~= a.push('\n') && u2.prev == '|');
    let s4 = run(s3, close);
    assert(!s4.ignore && !s4.tag && s4.out =~= a.push('\n'));
    lemma_run_concat(init, a + open + b + close, c);
    lemma_run_plain(s4, c);
    assert(a.push('\n') + c =~= a + seq!['\n'] + c);
}

/// Removes tables (with their content), references (with their content) and blockquote tags
/// (keeping their content) from MediaWiki text; every other tag and character is kept.
pub struct MediawikiPreprocessor<'a> {
    /// The MediaWiki input.
    source_text: &'a str,
    ignore_content: bool,
    tag_start_found: bool,
    prevchar: char,
    parsed_data: Vec<char>,
    tmp_storage: Vec<char>,
}

impl<'a> MediawikiPreprocessor<'a> {
    /// The state of the scan.
    pub closed spec fn state(&self) -> ScanState {
        ScanState {
            ignore: self.ignore_content,
            tag: self.tag_start_found,
            prev: self.prevchar,
            out: self.parsed_data@,
            buf: self.tmp_storage@,
        }
    }

    /// The text to preprocess.
    pub closed spec fn input(&self) -> Seq<char> {
        self.source_text@
    }

    /// A preprocessor for the given MediaWiki text.
    pub fn new(input: &'a str) -> (r: MediawikiPreprocessor<'a>)
        ensures
            r.input() == input@,
            r.state() == initial_state(),
    {
        MediawikiPreprocessor {
            source_text: input,
            ignore_content: false,
            tag_start_found: false,
            prevchar: 'a',
            parsed_data: Vec::new(),
            tmp_storage: Vec::new(),
        }
    }

    fn is_table_char(x: char) -> (r: bool)
        ensures
            r == is_table(x),
    {
        x == '|' || x == '{' || x == '}'
    }

    /// Runs the scan over the whole input. It fails with a structural error, holding the text
    /// read after the `<`, where a tag is still open at the end.
    pub fn preprocess(self) -> (r: Result<String, TransformationError>)
        ensures
            ({
                let end = run(self.state(), self.input());
                match r {
                    Ok(s) => !end.tag && s@ == end.out,
                    Err(e) => end.tag && (e matches TransformationError::ErrorneousStructure(m, p)
                        && m@ == unclosed_tag_message(end.buf) && p == PositionType::Unknown),
                }
            }),
    {
        let mut this = self;
        let chars = chars_of(this.source_text);
        let ghost start = this.state();
        let mut i: usize = 0;
        while i < chars.len()
            invariant
                0 <= i <= chars.len(),
                chars@ == self.input(),
                start == self.state(),
                this.state() == run(start, chars@.take(i as int)),
            decreases chars.len() - i,
        {
            let c = chars[i];
            assert(chars@.take(i + 1 as int).drop_last() == chars@.take(i as int));
            if Self::is_table_char(c) {
                this.handle_table_character(c);
            } else if c == '<' {
                this.tag_start_found = true;
            } else if c == '>' {
                this.handle_sgml_tag();
            } else {
                this.handle_other_character(c);
            }
            this.prevchar = c;
            i = i + 1;
        }
        assert(chars@.take(chars.len() as int) == chars@);
        if this.tag_start_found {
            let mut msg = String::from_str("text after opening <: ");
            push_chars(&mut msg, &this.tmp_storage);
            Err(TransformationError::ErrorneousStructure(msg, PositionType::Unknown))
        } else {
            Ok(string_of(&this.parsed_data))
        }
    }

    /// Whether the open tag starts with `tag`, letters compared without regard to case.
    fn found_tag(&self, tag: &Vec<char>) -> (r: bool)
        ensures
            r == starts_with_tag(self.tmp_storage@, tag@),
    {
        if self.tmp_storage.len() < tag.len() {
            return false;
        }
        let mut i: usize = 0;
        while i < tag.len()
            invariant
                0 <= i <= tag.len(),
                tag.len() <= self.tmp_storage.len(),
                forall|j: int| 0 <= j < i ==> #[trigger] same_letter(self.tmp_storage@[j], tag@[j]),
            decreases tag.len() - i,
        {
            let c = self.tmp_storage[i];
            let t = tag[i];
            if !(c == t || ('A' <= c && c <= 'Z' && (c as u32) + 32 == (t as u32))) {
                assert(!same_letter(self.tmp_storage@[i as int], tag@[i as int]));
                return false;
            }
            i = i + 1;
        }
        true
    }

    /// Closes a tag, or writes a `>` that closes none.
    fn handle_sgml_tag(&mut self)
        ensures
            final(self).state() == on_tag_close(old(self).state()),
            final(self).source_text == old(self).source_text,
            final(self).prevchar == old(self).prevchar,
    {
        if !self.tag_start_found {
            if !self.ignore_content {
                self.parsed_data.push('>');
            }
            return;
        }
        self.tag_start_found = false;
        let r = vec!['r', 'e', 'f'];
        let end_r = vec!['/', 'r', 'e', 'f'];
        let bq = vec!['b', 'l', 'o', 'c', 'k', 'q', 'u', 'o', 't', 'e'];
        let end_bq = vec!['/', 'b', 'l', 'o', 'c', 'k', 'q', 'u', 'o', 't', 'e'];
        assert(r@ == seq!['r', 'e', 'f']);
        assert(end_r@ == seq!['/', 'r', 'e', 'f']);
        assert(bq@ == seq!['b', 'l', 'o', 'c', 'k', 'q', 'u', 'o', 't', 'e']);
        assert(end_bq@ == seq!['/', 'b', 'l', 'o', 'c', 'k', 'q', 'u', 'o', 't', 'e']);
        if self.found_tag(&r) {
            self.ignore_content = true;
        } else if self.found_tag(&end_r) {
            self.ignore_content = false;
        } else if self.found_tag(&end_bq) || self.found_tag(&bq) {
        } else {
            self.parsed_data.push('<');
            append_chars(&mut self.parsed_data, &self.tmp_storage);
            self.parsed_data.push('>');
            assert(self.parsed_data@ =~= old(self).parsed_data@ + seq!['<'] + old(self).tmp_storage@
                + seq!['>']);
        }
        self.tmp_storage.clear();
    }

    /// Decides whether a table character opens or closes a table, or is text.
    fn handle_table_character(&mut self, table_char: char)
        ensures
            final(self).state() == on_table_char(old(self).state(), table_char),
            final(self).source_text == old(self).source_text,
            final(self).prevchar == old(self).prevchar,
    {
        if Self::is_table_char(self.prevchar) && self.prevchar != table_char {
            if self.ignore_content {
                self.ignore_content = false;
            } else {
                let n = self.parsed_data.len();
                if n < 2 || self.parsed_data[n - 2] == '\n' {
                    self.ignore_content = true;
                    if n > 0 && self.parsed_data[n - 1] == self.prevchar {
                        self.parsed_data.pop();
                        assert(old(self).parsed_data@.drop_last() == self.parsed_data@);
                    }
                } else {
                    self.parsed_data.push(table_char);
                }
            }
        } else if !self.ignore_content {
            self.parsed_data.push(table_char);
        }
    }

    /// Drops, reads into the open tag, or writes a character that is neither a table
    /// character nor `<` or `>`.
    fn handle_other_character(&mut self, otherchar: char)
        ensures
            final(self).state() == on_other_char(old(self).state(), otherchar),
            final(self).source_text == old(self).source_text,
            final(self).prevchar == old(self).prevchar,
    {
        if self.ignore_content && !self.tag_start_found {
            return;
        }
        if self.tag_start_found {
            if self.prevchar == '<' && otherchar != 'b' && otherchar != 'B' && otherchar != 'r'
                && otherchar != 'R' && otherchar != '/' {
                self.parsed_data.push('<');
                self.parsed_data.push(otherchar);
                self.tag_start_found = false;
            } else {
                self.tmp_storage.push(otherchar);
            }
        } else {
            self.parsed_data.push(otherchar);
        }
    }
}

/// Wikipedia articles, in MediaWiki markup.
pub struct Wikipedia;

impl Wikipedia {
    /// The article in `input` without tables, references and blockquote tags, keeping its
    /// position; see `preprocessed`. A tag left open fails with a structural error at the
    /// entity's position.
    pub fn preprocess_article(&self, input: &Entity) -> (r: Result<Entity, TransformationError>)
        ensures
            match preprocessed(input.content@) {
                Some(t) => r matches Ok(e) && e.content@ == t && e.position == input.position,
                None => r matches Err(TransformationError::ErrorneousStructure(_, p)) && p
                    == input.position,
            },
    {
        let pre = MediawikiPreprocessor::new(input.content.as_str());
        match pre.preprocess() {
            Ok(s) => Ok(Entity { content: s, position: input.position.duplicate() }),
            Err(e) => {
                let mut e = e;
                e.inject_position(input.position.duplicate());
                Err(e)
            },
        }
    }
}

impl Unformatter for Wikipedia {
    open spec fn needs_preprocessing(&self) -> bool {
        true
    }

    open spec fn markup(&self) -> InputFormat {
        InputFormat::MediaWiki
    }

    open spec fn preprocessed_text(&self, content: Seq<char>) -> Option<Seq<char>> {
        preprocessed(content)
    }

    fn is_preprocessing_required(&self) -> bool {
        true
    }

    fn get_input_format(&self) -> InputFormat {
        InputFormat::MediaWiki
    }

    fn preprocess(&self, input: &Entity) -> Result<Entity, TransformationError> {
        self.preprocess_article(input)
    }
}

/// Whether `text` is a redirect page.
pub open spec fn is_redirect(text: Seq<char>) -> bool {
    text.len() >= "#REDIRECT"@.len() && text.take("#REDIRECT"@.len() as int) == "#REDIRECT"@
}

/// The state of the article scanner: inside a `<text>` element or not, and the text collected.
pub struct ArticleState {
    pub in_text: bool,
    pub text: Seq<char>,
}

/// The state after one more event of a dump, and the article that it completes, if any. The
/// text of `<text>` elements is collected; a closing `</text>` completes the article unless it
/// is a redirect, which is dropped silently, and nothing outside `<text>` is collected.
pub open spec fn article_step(st: ArticleState, ev: XmlEvt) -> (ArticleState, Option<Seq<char>>) {
    match ev {
        XmlEvt::Start(name, _) => if name@ == "text"@ {
            (ArticleState { in_text: true, ..st }, None)
        } else {
            (st, None)
        },
        XmlEvt::End(name) => if name@ == "text"@ && st.in_text {
            if is_redirect(st.text) {
                (ArticleState { in_text: false, text: Seq::empty() }, None)
            } else {
                (ArticleState { in_text: false, text: Seq::empty() }, Some(st.text))
            }
        } else {
            (st, None)
        },
        XmlEvt::Characters(t) => if st.in_text {
            (ArticleState { text: st.text + t@, ..st }, None)
        } else {
            (st, None)
        },
        XmlEvt::Whitespace(t) => if st.in_text {
            (ArticleState { text: st.text + t@, ..st }, None)
        } else {
            (st, None)
        },
        XmlEvt::Other => (st, None),
    }
}

/// Collects the articles of a MediaWiki XML dump from its events, one event at a time.
pub struct ArticleScanner {
    is_text_element: bool,
    text: Vec<char>,
}

impl ArticleScanner {
    pub closed spec fn state(&self) -> ArticleState {
        ArticleState { in_text: self.is_text_element, text: self.text@ }
    }

    /// A scanner before the first event.
    pub fn new() -> (r: ArticleScanner)
        ensures
            r.state() == (ArticleState { in_text: false, text: Seq::empty() }),
    {
        ArticleScanner { is_text_element: false, text: Vec::new() }
    }

    /// Takes one event; returns the text of the article that it completes; see `article_step`.
    pub fn feed(&mut self, ev: &XmlEvt) -> (r: Option<String>)
        ensures
            (final(self).state(), match r {
                Some(s) => Some(s@),
                None => None::<Seq<char>>,
            }) == article_step(old(self).state(), *ev),
    {
        match ev {
            XmlEvt::Start(name, _) => {
                if *name == String::from_str("text") {
                    self.is_text_element = true;
                }
                None
            },
            XmlEvt::End(name) => {
                if *name == String::from_str("text") && self.is_text_element {
                    let redirect = chars_of("#REDIRECT");
                    let mut is_redirect = self.text.len() >= redirect.len();
                    let mut i: usize = 0;
                    while is_redirect && i < redirect.len()
                        invariant
                            0 <= i <= redirect.len(),
                            redirect@ == "#REDIRECT"@,
                            is_redirect ==> self.text.len() >= redirect.len() && self.text@.take(i as int) == redirect@.take(i as int),
                            !is_redirect ==> !(self.text@.len() >= redirect@.len() && self.text@.take(redirect.len() as int) == redirect@),
                        decreases redirect.len() - i,
                    {
                        if self.text[i] != redirect[i] {
                            assert(self.text@.take(redirect.len() as int)[i as int] != redirect@[i as int]);
                            is_redirect = false;
                        } else {
                            assert(self.text@.take(i + 1 as int) == self.text@.take(i as int).push(self.text@[i as int]));
                            assert(redirect@.take(i + 1 as int) == redirect@.take(i as int).push(redirect@[i as int]));
                        }
                        i = i + 1;
                    }
                    if is_redirect {
                        assert(redirect@.take(redirect.len() as int) == redirect@);
                        self.text = Vec::new();
                        self.is_text_element = false;
                        None
                    } else {
                        let done = string_of(&self.text);
                        self.text = Vec::new();
                        self.is_text_element = false;
                        Some(done)
                    }
                } else {
                    None
                }
            },
            XmlEvt::Characters(t) => {
                if self.is_text_element {
                    append_str(&mut self.text, t.as_str());
                }
                None
            },
            XmlEvt::Whitespace(t) => {
                if self.is_text_element {
                    append_str(&mut self.text, t.as_str());
                }
                None
            },
            XmlEvt::Other => None,
        }
    }

    /// At the end of the dump: the text collected since the last article, if any.
    pub fn finish(self) -> (r: Option<String>)
        ensures
            self.state().text.len() == 0 ==> r is None,
            self.state().text.len() > 0 ==> (r matches Some(s) && s@ == self.state().text),
    {
        if self.text.len() == 0 {
            None
        } else {
            Some(string_of(&self.text))
        }
    }
}


} // verus!
