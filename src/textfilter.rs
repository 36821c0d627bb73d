//! Turning flattened text into a word stream.
//!
//! `text2words` splits text at white space, strips punctuation and enclosing characters from
//! each word, keeps the words that look like words, lowercases them and drops stop words. The
//! context-break marker, standing alone between spaces, becomes a real line break.
use vstd::prelude::*;

use crate::document::{json_document, parse_json, JsonNode};
use crate::input_source::{PositionType, TransformationError};
use crate::text::{
    alphabetic, append_chars, append_str, chars_of, is_alphabetic, is_decimal, is_space, is_whitespace, lowercase_of,
    string_of, to_lowercase,
};

verus! {

/// The context-break marker: a paragraph, heading or list-item boundary, written surrounded by
/// spaces, which `text2words` turns into a line break.
pub const RETURN_ESCAPE_SEQUENCE: char = '\x07';

/// Quotes, brackets and parentheses, stripped from both ends of a word.
pub open spec fn is_enclosing(c: char) -> bool {
    ||| c == '(' || c == ')' || c == '[' || c == ']' || c == '{' || c == '}' || c == '"'
    ||| c == '\u{201e}' || c == '\u{201d}' || c == '\u{201c}' || c == '\u{201a}'
    ||| c == '\u{2019}' || c == '\u{2018}' || c == '\u{ab}' || c == '\u{bb}'
}

/// Punctuation, stripped from the end of a word.
pub open spec fn is_punct(c: char) -> bool {
    ||| c == '.' || c == ',' || c == ':' || c == ';' || c == '?' || c == '!'
    ||| c == '\u{2026}' || c == '\u{2013}'
}

/// Apostrophes and characters used as such; they may stand inside a word.
pub open spec fn is_apostrophe_like(c: char) -> bool {
    c == '\'' || c == '`' || c == '\u{201a}' || c == '\u{2018}' || c == '\u{2019}'
}

/// A letter or a decimal digit.
pub open spec fn is_word_char(c: char) -> bool {
    alphabetic(c) || is_decimal(c)
}

/// `w` without its trailing punctuation.
pub open spec fn trim_punct_end(w: Seq<char>) -> Seq<char>
    decreases w.len(),
{
    if w.len() > 0 && is_punct(w.last()) {
        trim_punct_end(w.drop_last())
    } else {
        w
    }
}

/// `w` without its leading punctuation.
pub open spec fn trim_punct_start(w: Seq<char>) -> Seq<char>
    decreases w.len(),
{
    if w.len() > 0 && is_punct(w[0]) {
        trim_punct_start(w.drop_first())
    } else {
        w
    }
}

/// `w` without punctuation at either end.
pub open spec fn trim_punct(w: Seq<char>) -> Seq<char> {
    trim_punct_start(trim_punct_end(w))
}

/// `w` without its trailing enclosing characters.
pub open spec fn trim_enclosing_end(w: Seq<char>) -> Seq<char>
    decreases w.len(),
{
    if w.len() > 0 && is_enclosing(w.last()) {
        trim_enclosing_end(w.drop_last())
    } else {
        w
    }
}

/// `w` without its leading enclosing characters.
pub open spec fn trim_enclosing_start(w: Seq<char>) -> Seq<char>
    decreases w.len(),
{
    if w.len() > 0 && is_enclosing(w[0]) {
        trim_enclosing_start(w.drop_first())
    } else {
        w
    }
}

/// A raw word after cleaning: punctuation at both ends, then enclosing characters at both
/// ends, then punctuation at both ends once more ("quoted." gives "quoted").
pub open spec fn clean_word(w: Seq<char>) -> Seq<char> {
    trim_punct(trim_enclosing_start(trim_enclosing_end(trim_punct(w))))
}

/// Whether a cleaned word is kept: one or two letters or digits; or, from three characters on,
/// a letter or digit followed by letters, digits, hyphens and apostrophes, at least one of
/// them a letter or digit (so `a--` is no word).
pub open spec fn word_included(w: Seq<char>) -> bool {
    if w.len() == 0 {
        false
    } else if w.len() <= 2 {
        forall|i: int| 0 <= i < w.len() ==> #[trigger] is_word_char(w[i])
    } else {
        &&& is_word_char(w[0])
        &&& forall|i: int|
            1 <= i < w.len() ==> #[trigger] is_word_char(w[i]) || w[i] == '-'
                || is_apostrophe_like(w[i])
        &&& exists|i: int| 1 <= i < w.len() && #[trigger] is_word_char(w[i])
    }
}

/// The white-space separated words of `s`, in order.
pub open spec fn tokens(s: Seq<char>) -> Seq<Seq<char>>
    decreases s.len(),
{
    if s.len() == 0 {
        Seq::empty()
    } else {
        let prev = tokens(s.drop_last());
        let c = s.last();
        if is_space(c) {
            prev
        } else if s.len() >= 2 && !is_space(s[s.len() - 2]) {
            prev.drop_last().push(prev.last().push(c))
        } else {
            prev.push(seq![c])
        }
    }
}

/// The word that stands for a context break.
pub open spec fn marker_token() -> Seq<char> {
    seq![RETURN_ESCAPE_SEQUENCE]
}

/// `out` followed by the space that separates it from a next word, unless it is empty or ends
/// a line.
pub open spec fn separate(out: Seq<char>) -> Seq<char> {
    if out.len() > 0 && out.last() != '\n' {
        out.push(' ')
    } else {
        out
    }
}

/// The output after one more raw word `tok`.
pub open spec fn emit(out: Seq<char>, tok: Seq<char>, stops: Set<Seq<char>>) -> Seq<char> {
    if tok == marker_token() {
        out.push('\n')
    } else {
        let w = clean_word(tok);
        let l = lowercase_of(w);
        if word_included(w) && !stops.contains(l) {
            separate(out) + l
        } else {
            out
        }
    }
}

/// The output after the raw words `toks`, written after `out`.
pub open spec fn render_on(out: Seq<char>, toks: Seq<Seq<char>>, stops: Set<Seq<char>>) -> Seq<char>
    decreases toks.len(),
{
    if toks.len() == 0 {
        out
    } else {
        emit(render_on(out, toks.drop_last(), stops), toks.last(), stops)
    }
}

/// The output for a sequence of raw words, before the final line break.
pub open spec fn render(toks: Seq<Seq<char>>, stops: Set<Seq<char>>) -> Seq<char> {
    render_on(Seq::empty(), toks, stops)
}

/// `out` ended by a line break, unless it is empty or already ends with one.
pub open spec fn finish(out: Seq<char>) -> Seq<char> {
    if out.len() > 0 && out.last() != '\n' {
        out.push('\n')
    } else {
        out
    }
}

/// The words of `s` as `text2words` writes them, before the final line break.
pub open spec fn words_body(s: Seq<char>, stops: Set<Seq<char>>) -> Seq<char> {
    render(tokens(s), stops)
}

/// What `text2words` returns for `s`.
pub open spec fn normalized(s: Seq<char>, stops: Set<Seq<char>>) -> Seq<char> {
    finish(words_body(s, stops))
}

/// The strings of a list of stop words.
pub open spec fn word_set(v: Seq<String>) -> Set<Seq<char>> {
    Set::new(|w: Seq<char>| exists|i: int| 0 <= i < v.len() && #[trigger] v[i]@ == w)
}

/// The stop words given to `text2words`; none when absent.
pub open spec fn stopword_set(stopwords: Option<Vec<String>>) -> Set<Seq<char>> {
    match stopwords {
        Some(v) => word_set(v@),
        None => Set::empty(),
    }
}

/// Whether `c` is an enclosing character.
fn is_enclosing_character(c: char) -> (r: bool)
    ensures
        r == is_enclosing(c),
{
    c == '(' || c == ')' || c == '[' || c == ']' || c == '{' || c == '}' || c == '"' || c
        == '\u{201e}' || c == '\u{201d}' || c == '\u{201c}' || c == '\u{201a}' || c
        == '\u{2019}' || c == '\u{2018}' || c == '\u{ab}' || c == '\u{bb}'
}

/// Whether `c` is punctuation.
fn is_punctuation(c: char) -> (r: bool)
    ensures
        r == is_punct(c),
{
    c == '.' || c == ',' || c == ':' || c == ';' || c == '?' || c == '!' || c == '\u{2026}'
        || c == '\u{2013}'
}

/// Whether `c` is an apostrophe or a character used as one.
fn is_apostrophe(c: char) -> (r: bool)
    ensures
        r == is_apostrophe_like(c),
{
    c == '\'' || c == '`' || c == '\u{201a}' || c == '\u{2018}' || c == '\u{2019}'
}

/// Whether `c` is a letter or a decimal digit.
fn is_letter_or_digit(c: char) -> (r: bool)
    ensures
        r == is_word_char(c),
{
    ('0' <= c && c <= '9') || is_alphabetic(c)
}

/// Whether a cleaned word belongs in the output.
fn word_should_be_included(word: &Vec<char>) -> (r: bool)
    ensures
        r == word_included(word@),
{
    let n = word.len();
    if n == 0 {
        return false;
    }
    if n <= 2 {
        let mut i: usize = 0;
        while i < n
            invariant
                n == word@.len(),
                1 <= n <= 2,
                0 <= i <= n,
                forall|j: int| 0 <= j < i ==> #[trigger] is_word_char(word@[j]),
            decreases n - i,
        {
            if !is_letter_or_digit(word[i]) {
                assert(!is_word_char(word@[i as int]));
                return false;
            }
            i = i + 1;
        }
        return true;
    }
    if !is_letter_or_digit(word[0]) {
        return false;
    }
    let mut found = false;
    let mut i: usize = 1;
    while i < n
        invariant
            n == word@.len(),
            1 <= i <= n,
            forall|j: int|
                1 <= j < i ==> #[trigger] is_word_char(word@[j]) || word@[j] == '-'
                    || is_apostrophe_like(word@[j]),
            found <==> exists|j: int| 1 <= j < i && #[trigger] is_word_char(word@[j]),
        decreases n - i,
    {
        let c = word[i];
        let letter = is_letter_or_digit(c);
        if !(letter || c == '-' || is_apostrophe(c)) {
            return false;
        }
        if letter {
            found = true;
        }
        i = i + 1;
    }
    found
}

/// Strips punctuation from the end, then from the start.
fn remove_punctuation(input: &mut Vec<char>)
    ensures
        final(input)@ == trim_punct(old(input)@),
{
    loop
        invariant
            trim_punct_end(input@) == trim_punct_end(old(input)@),
        ensures
            trim_punct_end(input@) == input@,
        decreases input@.len(),
    {
        if input.len() == 0 {
            break;
        }
        let last = input[input.len() - 1];
        if !is_punctuation(last) {
            break;
        }
        assert(input@.drop_last() == input@.subrange(0, input@.len() - 1));
        input.pop();
    }
    let ghost trimmed_end = input@;
    loop
        invariant
            trim_punct_start(input@) == trim_punct_start(trimmed_end),
            trimmed_end == trim_punct_end(old(input)@),
        ensures
            trim_punct_start(input@) == input@,
        decreases input@.len(),
    {
        if input.len() == 0 {
            break;
        }
        if !is_punctuation(input[0]) {
            break;
        }
        assert(input@.drop_first() == input@.remove(0));
        input.remove(0);
    }
}

/// Strips enclosing characters, first from the end, then from the start.
fn remove_enclosing_characters(input: &mut Vec<char>)
    ensures
        final(input)@ == trim_enclosing_start(trim_enclosing_end(old(input)@)),
{
    loop
        invariant
            trim_enclosing_end(input@) == trim_enclosing_end(old(input)@),
        ensures
            trim_enclosing_end(input@) == input@,
        decreases input@.len(),
    {
        if input.len() == 0 {
            break;
        }
        let last = input[input.len() - 1];
        if !is_enclosing_character(last) {
            break;
        }
        assert(input@.drop_last() == input@.subrange(0, input@.len() - 1));
        input.pop();
    }
    let ghost trimmed_end = input@;
    loop
        invariant
            trim_enclosing_start(input@) == trim_enclosing_start(trimmed_end),
            trimmed_end == trim_enclosing_end(old(input)@),
        ensures
            trim_enclosing_start(input@) == input@,
        decreases input@.len(),
    {
        if input.len() == 0 {
            break;
        }
        if !is_enclosing_character(input[0]) {
            break;
        }
        assert(input@.drop_first() == input@.remove(0));
        input.remove(0);
    }
}

/// Whether `w` is among the stop words.
fn is_stopword(stops: &Vec<String>, w: &String) -> (r: bool)
    ensures
        r == word_set(stops@).contains(w@),
{
    let mut j: usize = 0;
    while j < stops.len()
        invariant
            0 <= j <= stops.len(),
            forall|k: int| 0 <= k < j ==> stops@[k]@ != w@,
        decreases stops.len() - j,
    {
        if stops[j] == *w {
            return true;
        }
        j = j + 1;
    }
    false
}

/// Appends what one raw word contributes to the output.
fn emit_word(out: &mut Vec<char>, tok: Vec<char>, stops: &Vec<String>)
    ensures
        final(out)@ == emit(old(out)@, tok@, word_set(stops@)),
{
    if tok.len() == 1 && tok[0] == RETURN_ESCAPE_SEQUENCE {
        assert(tok@ == marker_token());
        out.push('\n');
        return;
    }
    assert(tok@ != marker_token());
    let mut word = tok;
    remove_punctuation(&mut word);
    remove_enclosing_characters(&mut word);
    remove_punctuation(&mut word);
    assert(word@ == clean_word(tok@));
    if !word_should_be_included(&word) {
        return;
    }
    let lower = to_lowercase(string_of(&word).as_str());
    if is_stopword(stops, &lower) {
        return;
    }
    let n = out.len();
    if n > 0 && out[n - 1] != '\n' {
        out.push(' ');
    }
    append_str(out, lower.as_str());
}

/// Reduces text to lowercase words separated by single spaces, one context per line.
///
/// Words are the white-space separated parts of `input`. Each loses its trailing punctuation,
/// its enclosing characters and then its trailing punctuation again; what remains is kept if it
/// looks like a word, is lowercased and is dropped if it is a stop word. A marker standing alone
/// becomes a line break; no space stands next to a line break. Unless empty, the result ends
/// with exactly one line break.
pub fn text2words(input: String, stopwords: Option<Vec<String>>) -> (r: String)
    ensures
        r@ == normalized(input@, stopword_set(stopwords)),
{
    let ghost stops = stopword_set(stopwords);
    let stop_list: Vec<String> = match stopwords {
        Some(v) => v,
        None => Vec::new(),
    };
    assert(word_set(stop_list@) =~= stops);
    let chars = chars_of(input.as_str());
    let mut out: Vec<char> = Vec::new();
    let mut cur: Vec<char> = Vec::new();
    let mut i: usize = 0;
    while i < chars.len()
        invariant
            0 <= i <= chars.len(),
            chars@ == input@,
            stops == word_set(stop_list@),
            cur@.len() == 0 <==> (i == 0 || is_space(chars@[i - 1])),
            cur@.len() > 0 ==> tokens(chars@.take(i as int)).len() > 0 && cur@ == tokens(
                chars@.take(i as int),
            ).last() && out@ == render(tokens(chars@.take(i as int)).drop_last(), stops),
            cur@.len() == 0 ==> out@ == render(tokens(chars@.take(i as int)), stops),
        decreases chars.len() - i,
    {
        let c = chars[i];
        let ghost pre = chars@.take(i as int);
        let ghost toks = tokens(pre);
        assert(chars@.take(i + 1 as int).drop_last() == pre);
        assert(chars@.take(i + 1 as int).last() == c);
        if is_whitespace(c) {
            if cur.len() > 0 {
                let word = cur;
                cur = Vec::new();
                emit_word(&mut out, word, &stop_list);
                assert(toks.drop_last().push(toks.last()) == toks);
            }
        } else {
            if cur.len() > 0 {
                cur.push(c);
                assert(toks.drop_last().push(toks.last().push(c)).drop_last() == toks.drop_last());
            } else {
                cur.push(c);
                assert(cur@ == seq![c]);
                assert(toks.push(seq![c]).drop_last() == toks);
            }
        }
        i = i + 1;
    }
    assert(chars@.take(chars.len() as int) == chars@);
    if cur.len() > 0 {
        let ghost toks = tokens(chars@);
        emit_word(&mut out, cur, &stop_list);
        assert(toks.drop_last().push(toks.last()) == toks);
    }
    let n = out.len();
    if n > 0 && out[n - 1] != '\n' {
        out.push('\n');
    }
    string_of(&out)
}

// Laws of the tokenizer.

/// Text that ends in a character other than white space has a last word.
proof fn lemma_tokens_nonempty(s: Seq<char>)
    requires
        s.len() > 0,
        !is_space(s.last()),
    ensures
        tokens(s).len() > 0,
{
}

/// After white space, the words of `x + y` are those of `x` followed by those of `y`.
proof fn lemma_tokens_concat(x: Seq<char>, y: Seq<char>)
    requires
        x.len() > 0,
        is_space(x.last()),
    ensures
        tokens(x + y) == tokens(x) + tokens(y),
    decreases y.len(),
{
    if y.len() == 0 {
        assert(x + y =~= x);
        assert(tokens(x) + tokens(y) =~= tokens(x));
    } else {
        let y1 = y.drop_last();
        let c = y.last();
        lemma_tokens_concat(x, y1);
        assert((x + y).drop_last() =~= x + y1);
        assert((x + y).last() == c);
        let p = tokens(x) + tokens(y1);
        if is_space(c) {
        } else if y1.len() > 0 && !is_space(y1.last()) {
            lemma_tokens_nonempty(y1);
            assert((x + y)[(x + y).len() - 2] == y1.last());
            assert(y[y.len() - 2] == y1.last());
            let t1 = tokens(y1);
            assert(p.drop_last() =~= tokens(x) + t1.drop_last());
            assert(p.last() == t1.last());
            assert(p.drop_last().push(p.last().push(c)) =~= tokens(x) + t1.drop_last().push(
                t1.last().push(c),
            ));
        } else {
            if y1.len() > 0 {
                assert((x + y)[(x + y).len() - 2] == y1.last());
                assert(y[y.len() - 2] == y1.last());
            } else {
                assert((x + y)[(x + y).len() - 2] == x.last());
            }
            assert(p.push(seq![c]) =~= tokens(x) + tokens(y1).push(seq![c]));
        }
    }
}

/// Rendering words after `out` that is empty or ends a line writes them as on a line of their
/// own.
proof fn lemma_render_after_line(out: Seq<char>, toks: Seq<Seq<char>>, stops: Set<Seq<char>>)
    requires
        out.len() == 0 || out.last() == '\n',
    ensures
        render_on(out, toks, stops) == out + render(toks, stops),
    decreases toks.len(),
{
    if toks.len() == 0 {
        assert(out + Seq::<char>::empty() =~= out);
    } else {
        lemma_render_after_line(out, toks.drop_last(), stops);
        let r1 = render(toks.drop_last(), stops);
        let t = toks.last();
        if t == marker_token() {
            assert((out + r1).push('\n') =~= out + r1.push('\n'));
        } else {
            let w = clean_word(t);
            let l = lowercase_of(w);
            if word_included(w) && !stops.contains(l) {
                if r1.len() > 0 {
                    assert((out + r1).last() == r1.last());
                    assert(separate(out + r1) =~= out + separate(r1));
                } else {
                    assert(out + r1 =~= out);
                    assert(separate(out + r1) =~= out + separate(r1));
                }
                assert(separate(out + r1) + l =~= out + (separate(r1) + l));
            }
        }
    }
}

/// The words of `p` followed by those of `q` render as `q` rendered after `p`.
proof fn lemma_render_concat(p: Seq<Seq<char>>, q: Seq<Seq<char>>, stops: Set<Seq<char>>)
    ensures
        render(p + q, stops) == render_on(render(p, stops), q, stops),
    decreases q.len(),
{
    if q.len() == 0 {
        assert(p + q =~= p);
    } else {
        lemma_render_concat(p, q.drop_last(), stops);
        assert((p + q).drop_last() =~= p + q.drop_last());
        assert((p + q).last() == q.last());
    }
}

/// A marker standing alone between spaces becomes exactly one line break: the words before it
/// end their line with no space, and the words after it are written as if on their own, with
/// no space at the start.
pub proof fn lemma_marker_becomes_line_break(a: Seq<char>, b: Seq<char>, stops: Set<Seq<char>>)
    ensures
        normalized(a + seq![' ', RETURN_ESCAPE_SEQUENCE, ' '] + b, stops) == words_body(a, stops)
            + seq!['\n'] + normalized(b, stops),
{
    let m = seq![' ', RETURN_ESCAPE_SEQUENCE, ' '];
    let x1 = a.push(' ');
    let x2 = seq![RETURN_ESCAPE_SEQUENCE, ' '];
    assert(a + m + b =~= x1 + (x2 + b));
    lemma_tokens_concat(x1, x2 + b);
    lemma_tokens_concat(x2, b);
    assert(x1.drop_last() == a);
    assert(tokens(x1) == tokens(a));
    assert(x2.drop_last() =~= seq![RETURN_ESCAPE_SEQUENCE]);
    assert(seq![RETURN_ESCAPE_SEQUENCE].drop_last() =~= Seq::<char>::empty());
    assert(tokens(Seq::<char>::empty()) == Seq::<Seq<char>>::empty());
    assert(tokens(seq![RETURN_ESCAPE_SEQUENCE]) =~= seq![marker_token()]) by {
        assert(Seq::<Seq<char>>::empty().push(seq![RETURN_ESCAPE_SEQUENCE]) =~= seq![marker_token()]);
    }
    assert(tokens(x2) =~= seq![marker_token()]);
    let ta = tokens(a);
    let tb = tokens(b);
    assert(tokens(a + m + b) =~= (ta + seq![marker_token()]) + tb);
    lemma_render_concat(ta + seq![marker_token()], tb, stops);
    lemma_render_concat(ta, seq![marker_token()], stops);
    let body = words_body(a, stops);
    assert(render_on(body, seq![marker_token()], stops) == body.push('\n')) by {
        assert(seq![marker_token()].drop_last() =~= Seq::<Seq<char>>::empty());
        assert(render_on(body, Seq::<Seq<char>>::empty(), stops) == body);
        assert(seq![marker_token()].last() == marker_token());
    }
    lemma_render_after_line(body.push('\n'), tb, stops);
    let rb = render(tb, stops);
    let whole = body.push('\n') + rb;
    if rb.len() > 0 {
        assert(whole.last() == rb.last());
        if rb.last() != '\n' {
            assert(whole.push('\n') =~= body + seq!['\n'] + rb.push('\n'));
        } else {
            assert(whole =~= body + seq!['\n'] + rb);
        }
    } else {
        assert(whole =~= body + seq!['\n'] + rb);
    }
}

/// A word as `text2words` writes it: non-empty, without white space, not a marker, unchanged by
/// cleaning and by lowercasing, and kept.
pub open spec fn is_output_word(w: Seq<char>) -> bool {
    &&& w.len() > 0
    &&& forall|i: int| 0 <= i < w.len() ==> !is_space(#[trigger] w[i])
    &&& w != marker_token()
    &&& clean_word(w) == w
    &&& word_included(w)
    &&& lowercase_of(w) == w
}

/// `ws` separated by single spaces.
pub open spec fn join_words(ws: Seq<Seq<char>>) -> Seq<char>
    decreases ws.len(),
{
    if ws.len() == 0 {
        Seq::empty()
    } else if ws.len() == 1 {
        ws[0]
    } else {
        join_words(ws.drop_last()) + seq![' '] + ws.last()
    }
}

/// A word without white space is one word.
proof fn lemma_tokens_of_word(w: Seq<char>)
    requires
        w.len() > 0,
        forall|i: int| 0 <= i < w.len() ==> !is_space(#[trigger] w[i]),
    ensures
        tokens(w) == seq![w],
    decreases w.len(),
{
    if w.len() == 1 {
        assert(w.drop_last() =~= Seq::<char>::empty());
        assert(tokens(Seq::<char>::empty()) == Seq::<Seq<char>>::empty());
        assert(seq![w.last()] =~= w);
        assert(!is_space(w.last()));
        assert(Seq::<Seq<char>>::empty().push(seq![w.last()]) =~= seq![w]);
    } else {
        let w1 = w.drop_last();
        assert forall|i: int| 0 <= i < w1.len() implies !is_space(#[trigger] w1[i]) by {
            assert(w1[i] == w[i]);
        }
        lemma_tokens_of_word(w1);
        assert(w[w.len() - 2] == w1.last());
        assert(!is_space(w[w.len() - 2]));
        assert(!is_space(w.last()));
        assert(w1.push(w.last()) =~= w);
        assert(seq![w1].drop_last() =~= Seq::<Seq<char>>::empty());
        assert(seq![w1].last() == w1);
        assert(Seq::<Seq<char>>::empty().push(w) =~= seq![w]);
    }
}

/// Words without white space, joined by single spaces, split back into the same words.
proof fn lemma_tokens_of_joined(ws: Seq<Seq<char>>)
    requires
        forall|i: int| 0 <= i < ws.len() ==> is_output_word(#[trigger] ws[i]),
    ensures
        tokens(join_words(ws)) == ws,
        ws.len() > 0 ==> join_words(ws).len() > 0 && !is_space(join_words(ws).last()),
    decreases ws.len(),
{
    if ws.len() == 0 {
        assert(ws =~= Seq::<Seq<char>>::empty());
    } else if ws.len() == 1 {
        assert(is_output_word(ws[0]));
        lemma_tokens_of_word(ws[0]);
        assert(seq![ws[0]] =~= ws);
        assert(!is_space(ws[0][ws[0].len() - 1]));
    } else {
        let w1 = ws.drop_last();
        assert forall|i: int| 0 <= i < w1.len() implies is_output_word(#[trigger] w1[i]) by {
            assert(w1[i] == ws[i]);
        }
        lemma_tokens_of_joined(w1);
        let j1 = join_words(w1);
        let w = ws.last();
        assert(is_output_word(ws[ws.len() - 1]));
        lemma_tokens_of_word(w);
        let x = j1.push(' ');
        assert(j1 + seq![' '] + w =~= x + w);
        lemma_tokens_concat(x, w);
        assert(x.drop_last() == j1);
        assert(tokens(x) == tokens(j1));
        assert(w1.push(w) =~= ws);
        assert((x + w).last() == w.last());
        assert(!is_space(w[w.len() - 1]));
    }
}

/// Words written by `text2words` render with no stop words as the words joined by spaces.
proof fn lemma_render_output_words(ws: Seq<Seq<char>>)
    requires
        forall|i: int| 0 <= i < ws.len() ==> is_output_word(#[trigger] ws[i]),
    ensures
        render(ws, Set::empty()) == join_words(ws),
        ws.len() > 0 ==> join_words(ws).len() > 0 && join_words(ws).last() != '\n',
    decreases ws.len(),
{
    if ws.len() > 0 {
        let w1 = ws.drop_last();
        assert forall|i: int| 0 <= i < w1.len() implies is_output_word(#[trigger] w1[i]) by {
            assert(w1[i] == ws[i]);
        }
        lemma_render_output_words(w1);
        let w = ws.last();
        assert(is_output_word(ws[ws.len() - 1]));
        assert(w[w.len() - 1] != '\n') by {
            assert(!is_space(w[w.len() - 1]));
        }
        if ws.len() == 1 {
            assert(render_on(Seq::empty(), w1, Set::empty()) == Seq::<char>::empty());
            assert(Seq::<char>::empty() + w =~= w);
        } else {
            assert(join_words(w1) + seq![' '] + w =~= join_words(w1).push(' ') + w);
        }
    }
}

/// Text that `text2words` wrote on one line, with no stop words and words that lowercasing
/// leaves unchanged, comes out of `text2words` unchanged: nothing more is stripped.
pub proof fn lemma_normalized_line_is_fixed(ws: Seq<Seq<char>>)
    requires
        forall|i: int| 0 <= i < ws.len() ==> is_output_word(#[trigger] ws[i]),
    ensures
        normalized(finish(join_words(ws)), Set::empty()) == finish(join_words(ws)),
{
    lemma_tokens_of_joined(ws);
    lemma_render_output_words(ws);
    let j = join_words(ws);
    if ws.len() == 0 {
        assert(tokens(finish(j)) =~= Seq::<Seq<char>>::empty());
    } else {
        assert(finish(j) == j.push('\n'));
        assert(j.push('\n').drop_last() == j);
        assert(tokens(j.push('\n')) == tokens(j));
    }
}

// The document-tree flattener.
//
// A document is a JSON array `[metadata, content]`; the content is a tree of objects
// `{"t": kind, "c": content}` and arrays. Text is written as it stands, block-level nodes are
// followed by a context-break marker, and markup is dropped.

/// Node kinds that stand for a break between words.
pub open spec fn is_space_kind(t: Seq<char>) -> bool {
    t == "Space"@ || t == "LineBreak"@ || t == "SoftBreak"@
}

/// Block-level node kinds: a context break follows their text.
pub open spec fn is_block_kind(t: Seq<char>) -> bool {
    t == "Para"@ || t == "Plain"@ || t == "BlockQuote"@ || t == "BulletList"@ || t
        == "DefinitionList"@
}

/// Inline node kinds: their text is kept, with no break.
pub open spec fn is_inline_kind(t: Seq<char>) -> bool {
    t == "Emph"@ || t == "Strong"@ || t == "Strikeout"@ || t == "SmallCaps"@ || t == "Note"@
}

/// Node kinds whose content is `[attributes, content]`.
pub open spec fn is_attributed_kind(t: Seq<char>) -> bool {
    t == "OrderedList"@ || t == "Div"@ || t == "Span"@
}

/// Node kinds that contribute no text.
pub open spec fn is_ignored_kind(t: Seq<char>) -> bool {
    ||| t == "CodeBlock"@ || t == "RawBlock"@ || t == "HorizontalRule"@ || t == "Table"@
    ||| t == "Superscript"@ || t == "Subscript"@ || t == "Cite"@ || t == "Code"@
    ||| t == "Math"@ || t == "RawInline"@ || t == "Null"@
}

/// `out` with a space, unless it is empty or already ends in white space.
pub open spec fn append_space(out: Seq<char>) -> Seq<char> {
    if out.len() > 0 && !is_space(out.last()) {
        out.push(' ')
    } else {
        out
    }
}

/// Whether a context-break marker ends `out`: the marker is written between spaces, so it
/// stands second to last.
pub open spec fn ends_with_break(out: Seq<char>) -> bool {
    out.len() >= 2 && out[out.len() - 2] == RETURN_ESCAPE_SEQUENCE
}

/// `out` with a context-break marker between spaces, unless it is empty (no context has begun)
/// or a marker already ends it.
pub open spec fn append_break(out: Seq<char>) -> Seq<char> {
    if out.len() == 0 || ends_with_break(out) {
        out
    } else {
        out + seq![' ', RETURN_ESCAPE_SEQUENCE, ' ']
    }
}

/// The index of the first member of `fields`, from `i` on, whose key is `key`.
pub open spec fn member_from(fields: Seq<(String, JsonNode)>, key: Seq<char>, i: int) -> Option<int>
    decreases fields.len() - i,
{
    if i < 0 || i >= fields.len() {
        None
    } else if fields[i].0@ == key {
        Some(i)
    } else {
        member_from(fields, key, i + 1)
    }
}

/// The index of the member of `fields` whose key is `key`.
pub open spec fn member(fields: Seq<(String, JsonNode)>, key: Seq<char>) -> Option<int> {
    member_from(fields, key, 0)
}

/// The output after the text of `v`, written after `out`; `None` for a tree of an unexpected
/// shape.
pub open spec fn flatten_node(out: Seq<char>, v: JsonNode) -> Option<Seq<char>>
    decreases v,
{
    match v {
        JsonNode::Null => Some(out),
        JsonNode::Bool(b) => Some(
            out + if b {
                "true"@
            } else {
                "false"@
            },
        ),
        JsonNode::Number(t) => Some(out + t@),
        JsonNode::Text(t) => Some(out + t@),
        JsonNode::Array(items) => flatten_items(out, items, 0),
        JsonNode::Object(fields) => flatten_object(out, fields),
    }
}

/// The output after the elements of `items` from `i` on; a space separates an element from the
/// next where the text does not already end in white space.
pub open spec fn flatten_items(out: Seq<char>, items: Vec<JsonNode>, i: int) -> Option<Seq<char>>
    decreases items, items.len() - i,
{
    if i < 0 || i >= items.len() {
        Some(out)
    } else {
        match flatten_node(out, items[i]) {
            None => None,
            Some(o) => {
                let o2 = if o.len() > 0 && !is_space(o.last()) && i + 1 < items.len() {
                    o.push(' ')
                } else {
                    o
                };
                flatten_items(o2, items, i + 1)
            },
        }
    }
}

/// The output after a node `{"t": kind, "c": content}` given by its members.
pub open spec fn flatten_object(out: Seq<char>, fields: Vec<(String, JsonNode)>) -> Option<Seq<char>>
    decreases fields,
{
    let kind = member(fields@, "t"@);
    if kind is None || !(0 <= kind->0 < fields.len()) {
        None
    } else {
        match fields[kind->0].1 {
            JsonNode::Text(t) => {
                let t = t@;
                let c = match member(fields@, "c"@) {
                    Some(ci) => if 0 <= ci < fields.len() {
                        Some(ci)
                    } else {
                        None
                    },
                    None => None,
                };
                if is_space_kind(t) {
                    Some(append_space(out))
                } else if is_ignored_kind(t) {
                    Some(out)
                } else if c is None {
                    if t == "Str"@ || t == "Header"@ || is_block_kind(t) || is_inline_kind(t)
                        || is_attributed_kind(t) || t == "Link"@ || t == "Image"@ {
                        Some(out)
                    } else {
                        None
                    }
                } else {
                    let ci = c->0;
                    if t == "Str"@ {
                        match fields[ci].1 {
                            JsonNode::Text(s) => Some(out + s@),
                            _ => None,
                        }
                    } else if t == "Header"@ {
                        match fields[ci].1 {
                            JsonNode::Array(items) => if items.len() > 2 {
                                match flatten_node(out, items[2]) {
                                    Some(o) => Some(append_break(o)),
                                    None => None,
                                }
                            } else {
                                Some(append_break(out))
                            },
                            _ => Some(append_break(out)),
                        }
                    } else if is_block_kind(t) {
                        match flatten_node(out, fields[ci].1) {
                            Some(o) => Some(append_break(o)),
                            None => None,
                        }
                    } else if is_inline_kind(t) {
                        flatten_node(out, fields[ci].1)
                    } else if is_attributed_kind(t) {
                        match fields[ci].1 {
                            JsonNode::Array(items) => if items.len() == 2 {
                                match flatten_node(out, items[1]) {
                                    Some(o) => Some(
                                        if t == "Span"@ {
                                            o
                                        } else {
                                            append_break(o)
                                        },
                                    ),
                                    None => None,
                                }
                            } else {
                                None
                            },
                            _ => None,
                        }
                    } else if t == "Link"@ || t == "Image"@ {
                        match fields[ci].1 {
                            JsonNode::Array(items) => if items.len() == 3 {
                                match flatten_node(Seq::empty(), items[1]) {
                                    Some(shown) => Some(
                                        if t == "Link"@ || tokens(shown).len() >= 3 {
                                            out + shown
                                        } else {
                                            out
                                        },
                                    ),
                                    None => None,
                                }
                            } else {
                                None
                            },
                            _ => None,
                        }
                    } else {
                        None
                    }
                }
            },
            _ => None,
        }
    }
}

/// Two texts whose first characters differ are different.
proof fn lemma_first_chars_differ(a: Seq<char>, b: Seq<char>)
    requires
        a.len() > 0,
        b.len() > 0,
        a[0] != b[0],
    ensures
        a != b,
{
}

/// `Image` is none of the other node kinds: every other kind starts with another letter.
proof fn lemma_image_is_its_own_kind()
    ensures
        !is_space_kind("Image"@),
        !is_ignored_kind("Image"@),
        !is_block_kind("Image"@),
        !is_inline_kind("Image"@),
        !is_attributed_kind("Image"@),
        "Image"@ != "Str"@,
        "Image"@ != "Header"@,
        "Image"@ != "Link"@,
{
    reveal_strlit("Image");
    reveal_strlit("Space");
    reveal_strlit("LineBreak");
    reveal_strlit("SoftBreak");
    reveal_strlit("CodeBlock");
    reveal_strlit("RawBlock");
    reveal_strlit("HorizontalRule");
    reveal_strlit("Table");
    reveal_strlit("Superscript");
    reveal_strlit("Subscript");
    reveal_strlit("Cite");
    reveal_strlit("Code");
    reveal_strlit("Math");
    reveal_strlit("RawInline");
    reveal_strlit("Null");
    reveal_strlit("Str");
    reveal_strlit("Header");
    reveal_strlit("Para");
    reveal_strlit("Plain");
    reveal_strlit("BlockQuote");
    reveal_strlit("BulletList");
    reveal_strlit("DefinitionList");
    reveal_strlit("Emph");
    reveal_strlit("Strong");
    reveal_strlit("Strikeout");
    reveal_strlit("SmallCaps");
    reveal_strlit("Note");
    reveal_strlit("OrderedList");
    reveal_strlit("Div");
    reveal_strlit("Span");
    reveal_strlit("Link");
    let others: Seq<Seq<char>> = seq![
        "Space"@,
        "LineBreak"@,
        "SoftBreak"@,
        "CodeBlock"@,
        "RawBlock"@,
        "HorizontalRule"@,
        "Table"@,
        "Superscript"@,
        "Subscript"@,
        "Cite"@,
        "Code"@,
        "Math"@,
        "RawInline"@,
        "Null"@,
        "Str"@,
        "Header"@,
        "Para"@,
        "Plain"@,
        "BlockQuote"@,
        "BulletList"@,
        "DefinitionList"@,
        "Emph"@,
        "Strong"@,
        "Strikeout"@,
        "SmallCaps"@,
        "Note"@,
        "OrderedList"@,
        "Div"@,
        "Span"@,
        "Link"@,
    ];
    assert forall|j: int| 0 <= j < others.len() implies #[trigger] others[j] != "Image"@ by {
        lemma_first_chars_differ("Image"@, others[j]);
    }
}

/// An image node contributes its description where that has at least three words, and
/// nothing otherwise: short descriptions belong to icons and logos.
pub proof fn lemma_image_description(
    out: Seq<char>,
    fields: Vec<(String, JsonNode)>,
    items: Vec<JsonNode>,
    shown: Seq<char>,
)
    requires
        (member(fields@, "t"@) matches Some(k) && 0 <= k < fields.len() && (fields[k].1 matches JsonNode::Text(t) && t@ == "Image"@)),
        (member(fields@, "c"@) matches Some(k) && 0 <= k < fields.len() && fields[k].1 == JsonNode::Array(items)),
        items.len() == 3,
        flatten_node(Seq::empty(), items[1]) == Some(shown),
    ensures
        flatten_object(out, fields) == Some(
            if tokens(shown).len() >= 3 {
                out + shown
            } else {
                out
            },
        ),
{
    lemma_image_is_its_own_kind();
}

/// The text of a whole document `[metadata, content]`: that of its content. A document of
/// another length has no text; a document that is not an array is refused.
pub open spec fn flattened_document(doc: JsonNode) -> Option<Seq<char>> {
    match doc {
        JsonNode::Array(parts) => if parts.len() == 2 {
            flatten_node(Seq::empty(), parts[1])
        } else {
            Some(Seq::empty())
        },
        _ => None,
    }
}

/// A structural error with the given message and no position yet.
fn structure_error(msg: &str) -> (r: TransformationError)
    ensures
        r matches TransformationError::ErrorneousStructure(_, p) && p == PositionType::Unknown,
{
    TransformationError::ErrorneousStructure(String::from_str(msg), PositionType::Unknown)
}

/// Whether `t` is `name`.
fn is_kind(t: &String, name: &str) -> (r: bool)
    ensures
        r == (t@ == name@),
{
    *t == String::from_str(name)
}

/// The number of white-space separated words in `v`.
fn count_words(v: &Vec<char>) -> (r: usize)
    ensures
        r == tokens(v@).len(),
{
    let mut count: usize = 0;
    let mut in_word = false;
    let mut i: usize = 0;
    while i < v.len()
        invariant
            0 <= i <= v.len(),
            count <= i,
            count == tokens(v@.take(i as int)).len(),
            in_word == (i > 0 && !is_space(v@[i - 1])),
            in_word ==> count > 0,
        decreases v.len() - i,
    {
        let c = v[i];
        let ghost pre = v@.take(i as int);
        assert(v@.take(i + 1 as int).drop_last() == pre);
        assert(v@.take(i + 1 as int).last() == c);
        if is_whitespace(c) {
            in_word = false;
        } else {
            if !in_word {
                count = count + 1;
            }
            in_word = true;
        }
        i = i + 1;
    }
    assert(v@.take(v.len() as int) == v@);
    count
}


/// Appends a context-break marker, unless the output is empty or a marker already ends it.
fn add_newline(output: &mut Vec<char>)
    ensures
        final(output)@ == append_break(old(output)@),
{
    let n = output.len();
    if n > 0 && !(n >= 2 && output[n - 2] == RETURN_ESCAPE_SEQUENCE) {
        output.push(' ');
        output.push(RETURN_ESCAPE_SEQUENCE);
        output.push(' ');
        assert(output@ =~= old(output)@ + seq![' ', RETURN_ESCAPE_SEQUENCE, ' ']);
    }
}

/// The index of the member whose key is `key`.
fn member_index(fields: &Vec<(String, JsonNode)>, key: &str) -> (r: Option<usize>)
    ensures
        r matches Some(i) ==> member(fields@, key@) == Some(i as int) && i < fields.len(),
        r is None ==> member(fields@, key@) is None,
{
    let k = String::from_str(key);
    let mut i: usize = 0;
    while i < fields.len()
        invariant
            0 <= i <= fields.len(),
            k@ == key@,
            member(fields@, key@) == member_from(fields@, key@, i as int),
        decreases fields.len() - i,
    {
        if fields[i].0 == k {
            return Some(i);
        }
        i = i + 1;
    }
    None
}

/// Appends the text of `jsval`.
fn recurse_json_tree(output: &mut Vec<char>, jsval: &JsonNode) -> (r: Result<(), TransformationError>)
    ensures
        flatten_node(old(output)@, *jsval) matches Some(o) ==> r is Ok && final(output)@ == o,
        flatten_node(old(output)@, *jsval) is None ==> r is Err,
    decreases jsval,
{
    match jsval {
        JsonNode::Null => Ok(()),
        JsonNode::Bool(b) => {
            if *b {
                append_str(output, "true");
            } else {
                append_str(output, "false");
            }
            Ok(())
        },
        JsonNode::Number(t) => {
            append_str(output, t.as_str());
            Ok(())
        },
        JsonNode::Text(t) => {
            append_str(output, t.as_str());
            Ok(())
        },
        JsonNode::Array(values) => flatten_array(output, values),
        JsonNode::Object(fields) => handle_pandoc_entities(output, fields),
    }
}

/// Appends the text of the elements of an array, separated by a space where the text does
/// not already end in white space.
fn flatten_array(output: &mut Vec<char>, values: &Vec<JsonNode>) -> (r: Result<(), TransformationError>)
    ensures
        flatten_items(old(output)@, *values, 0) matches Some(o) ==> r is Ok && final(output)@ == o,
        flatten_items(old(output)@, *values, 0) is None ==> r is Err,
    decreases values,
{
    let mut i: usize = 0;
    while i < values.len()
        invariant
            0 <= i <= values.len(),
            flatten_items(old(output)@, *values, 0) == flatten_items(output@, *values, i as int),
        decreases values.len() - i,
    {
        proof {
            vstd::std_specs::vec::axiom_vec_index_decreases(*values, i as int);
        }
        let ghost before = output@;
        match recurse_json_tree(output, &values[i]) {
            Ok(()) => {},
            Err(e) => {
                assert(flatten_items(before, *values, i as int) is None);
                return Err(e);
            },
        }
        let n = output.len();
        if n > 0 && !is_whitespace(output[n - 1]) && i + 1 < values.len() {
            output.push(' ');
        }
        i = i + 1;
    }
    Ok(())
}

/// Appends the text of a node given by its members.
fn handle_pandoc_entities(output: &mut Vec<char>, fields: &Vec<(String, JsonNode)>) -> (r: Result<(), TransformationError>)
    ensures
        flatten_object(old(output)@, *fields) matches Some(o) ==> r is Ok && final(output)@ == o,
        flatten_object(old(output)@, *fields) is None ==> r is Err,
    decreases fields,
{
    let ti = match member_index(fields, "t") {
        Some(ti) => ti,
        None => {
            return Err(structure_error("document node without a kind"));
        },
    };
    let t = match &fields[ti].1 {
        JsonNode::Text(t) => t,
        _ => {
            return Err(structure_error("document node kind is not a string"));
        },
    };
    let c = member_index(fields, "c");
    if is_kind(t, "Space") || is_kind(t, "LineBreak") || is_kind(t, "SoftBreak") {
        let n = output.len();
        if n > 0 && !is_whitespace(output[n - 1]) {
            output.push(' ');
        }
        return Ok(());
    }
    if is_kind(t, "CodeBlock") || is_kind(t, "RawBlock") || is_kind(t, "HorizontalRule")
        || is_kind(t, "Table") || is_kind(t, "Superscript") || is_kind(t, "Subscript")
        || is_kind(t, "Cite") || is_kind(t, "Code") || is_kind(t, "Math") || is_kind(
        t,
        "RawInline",
    ) || is_kind(t, "Null") {
        return Ok(());
    }
    let is_str = is_kind(t, "Str");
    let is_header = is_kind(t, "Header");
    let is_block = is_kind(t, "Para") || is_kind(t, "Plain") || is_kind(t, "BlockQuote")
        || is_kind(t, "BulletList") || is_kind(t, "DefinitionList");
    let is_inline = is_kind(t, "Emph") || is_kind(t, "Strong") || is_kind(t, "Strikeout")
        || is_kind(t, "SmallCaps") || is_kind(t, "Note");
    let is_span = is_kind(t, "Span");
    let is_attributed = is_kind(t, "OrderedList") || is_kind(t, "Div") || is_span;
    let is_link = is_kind(t, "Link");
    let is_image = is_kind(t, "Image");
    let ci = match c {
        Some(ci) => ci,
        None => {
            if is_str || is_header || is_block || is_inline || is_attributed || is_link
                || is_image {
                return Ok(());
            }
            return Err(structure_error("unknown kind of document node"));
        },
    };
    let content = &fields[ci].1;
    if is_str {
        match content {
            JsonNode::Text(s) => {
                append_str(output, s.as_str());
                        Ok(())
            },
            _ => Err(structure_error("Str node without a string")),
        }
    } else if is_header {
        match content {
            JsonNode::Array(items) => {
                if items.len() > 2 {
                    recurse_json_tree(output, &items[2])?;
                }
            },
            _ => {},
        }
        add_newline(output);
        Ok(())
    } else if is_block {
        recurse_json_tree(output, content)?;
        add_newline(output);
        Ok(())
    } else if is_inline {
        recurse_json_tree(output, content)
    } else if is_attributed {
        match content {
            JsonNode::Array(items) => {
                if items.len() != 2 {
                    return Err(structure_error("expected an array of two elements"));
                }
                recurse_json_tree(output, &items[1])?;
                if !is_span {
                    add_newline(output);
                }
                        Ok(())
            },
            _ => Err(structure_error("expected an array of two elements")),
        }
    } else if is_link || is_image {
        match content {
            JsonNode::Array(items) => {
                if items.len() != 3 {
                    return Err(structure_error("expected an array of three elements"));
                }
                proof {
                    reveal_strlit("Link");
                    reveal_strlit("Image");
                    assert("Link"@ != "Image"@) by {
                        assert("Link"@.len() != "Image"@.len());
                    }
                    assert(is_image ==> t@ == "Image"@);
                    assert(!is_image ==> t@ == "Link"@);
                }
                handle_external_references(output, is_image, items)
            },
            _ => Err(structure_error("expected an array of three elements")),
        }
    } else {
        Err(structure_error("unknown kind of document node"))
    }
}

/// Appends the shown text of a link, or the description of an image where it has at least
/// three words; icons and logos have shorter ones.
pub fn handle_external_references(output: &mut Vec<char>, is_image: bool, items: &Vec<JsonNode>) -> (r: Result<(), TransformationError>)
    requires
        items.len() == 3,
    ensures
        match flatten_node(Seq::empty(), items[1]) {
            Some(text) => r is Ok && final(output)@ == if !is_image || tokens(text).len() >= 3 {
                old(output)@ + text
            } else {
                old(output)@
            },
            None => r is Err,
        },
    decreases items,
{
    let mut read_text: Vec<char> = Vec::new();
    proof {
        vstd::std_specs::vec::axiom_vec_index_decreases(*items, 1);
    }
    match recurse_json_tree(&mut read_text, &items[1]) {
        Ok(()) => {},
        Err(e) => {
            return Err(e);
        },
    }
    if !is_image || count_words(&read_text) >= 3 {
        append_chars(output, &read_text);
    }
    Ok(())
}

/// The text of a document tree `[metadata, content]`, with context-break markers after
/// block-level nodes; see `flatten_node`. It fails with a structural error where the tree is
/// not an array, or holds a node of an unknown kind or of an unexpected shape.
pub fn stringify_tree(doc: &JsonNode) -> (r: Result<String, TransformationError>)
    ensures
        match flattened_document(*doc) {
            Some(text) => r matches Ok(s) && s@ == text,
            None => r matches Err(TransformationError::ErrorneousStructure(_, _)),
        },
{
    match doc {
        JsonNode::Array(parts) => {
            let mut output: Vec<char> = Vec::new();
            if parts.len() == 2 {
                match recurse_json_tree(&mut output, &parts[1]) {
                    Ok(()) => {},
                    Err(_) => {
                        return Err(structure_error("document tree of an unexpected shape"));
                    },
                }
            }
            Ok(string_of(&output))
        },
        _ => Err(
            structure_error(
                "expected a document with an array of two entries at the top level: the metadata and the content",
            ),
        ),
    }
}

/// The text of a document that the document parser wrote as JSON; see `stringify_tree`. It
/// fails with a JSON error where the input is not JSON.
pub fn stringify_text(pandoc_dump: String) -> (r: Result<String, TransformationError>)
    ensures
        match json_document(pandoc_dump@) {
            None => r matches Err(TransformationError::JsonError(_, p)) && p == PositionType::Unknown,
            Some(doc) => match flattened_document(doc) {
                Some(text) => r matches Ok(s) && s@ == text,
                None => r matches Err(TransformationError::ErrorneousStructure(_, _)),
            },
        },
{
    match parse_json(pandoc_dump.as_str()) {
        Ok(doc) => stringify_tree(&doc),
        Err(e) => Err(TransformationError::JsonError(e, PositionType::Unknown)),
    }
}

} // verus!
