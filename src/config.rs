//! The configuration of one language, the stop-word list, and the bookkeeping of a run.
use vstd::prelude::*;

use crate::text::{append_chars, chars_of, is_space, is_whitespace, string_of};

verus! {

/// The sources configured for one language, each by the path of its data, and the stop words
/// as a comma-separated list.
pub struct LanguageCfg {
    pub wikipedia: Option<String>,
    pub gutenberg: Option<String>,
    pub dgt: Option<String>,
    pub europeana: Option<String>,
    pub codecivil: Option<String>,
    pub stopwords: Option<String>,
}

/// The names of the configured sources, in a fixed order.
pub open spec fn active_names(cfg: LanguageCfg) -> Seq<Seq<char>> {
    let w = if cfg.wikipedia is Some { seq!["Wikipedia"@] } else { Seq::empty() };
    let g = if cfg.gutenberg is Some { seq!["Gutenberg"@] } else { Seq::empty() };
    let d = if cfg.dgt is Some { seq!["DGT (Translation Memories)"@] } else { Seq::empty() };
    let e = if cfg.europeana is Some { seq!["Europeana"@] } else { Seq::empty() };
    let c = if cfg.codecivil is Some { seq!["Code Civil"@] } else { Seq::empty() };
    w + g + d + e + c
}

/// `names` separated by a comma and a space.
pub open spec fn joined(names: Seq<Seq<char>>) -> Seq<char>
    decreases names.len(),
{
    if names.len() == 0 {
        Seq::empty()
    } else if names.len() == 1 {
        names[0]
    } else {
        joined(names.drop_last()) + ", "@ + names.last()
    }
}

impl LanguageCfg {
    /// The names of the configured sources, separated by commas.
    pub fn get_active_modules(&self) -> (r: String)
        ensures
            r@ == joined(active_names(*self)),
    {
        let mut active: Vec<char> = Vec::new();
        let ghost mut names: Seq<Seq<char>> = Seq::empty();
        if self.wikipedia.is_some() {
            proof {
                reveal_strlit("Wikipedia");
            }
            add_name(&mut active, Ghost(names), "Wikipedia");
            proof {
                names = names.push("Wikipedia"@);
            }
        }
        if self.gutenberg.is_some() {
            proof {
                reveal_strlit("Gutenberg");
            }
            add_name(&mut active, Ghost(names), "Gutenberg");
            proof {
                names = names.push("Gutenberg"@);
            }
        }
        if self.dgt.is_some() {
            proof {
                reveal_strlit("DGT (Translation Memories)");
            }
            add_name(&mut active, Ghost(names), "DGT (Translation Memories)");
            proof {
                names = names.push("DGT (Translation Memories)"@);
            }
        }
        if self.europeana.is_some() {
            proof {
                reveal_strlit("Europeana");
            }
            add_name(&mut active, Ghost(names), "Europeana");
            proof {
                names = names.push("Europeana"@);
            }
        }
        if self.codecivil.is_some() {
            proof {
                reveal_strlit("Code Civil");
            }
            add_name(&mut active, Ghost(names), "Code Civil");
            proof {
                names = names.push("Code Civil"@);
            }
        }
        assert(names =~= active_names(*self));
        string_of(&active)
    }
}

/// Appends one more name to the list `active`, which holds `names`.
fn add_name(active: &mut Vec<char>, names: Ghost<Seq<Seq<char>>>, name: &str)
    requires
        old(active)@ == joined(names@),
        old(active)@.len() == 0 <==> names@.len() == 0,
        forall|i: int| 0 <= i < names@.len() ==> #[trigger] names@[i].len() > 0,
        name@.len() > 0,
    ensures
        final(active)@ == joined(names@.push(name@)),
        final(active)@.len() > 0,
{
    let sep = chars_of(", ");
    let cs = chars_of(name);
    let ghost before = active@;
    if active.len() > 0 {
        append_chars(active, &sep);
    }
    append_chars(active, &cs);
    proof {
        let ns = names@.push(name@);
        assert(ns.drop_last() =~= names@);
        if names@.len() == 0 {
            assert(ns.len() == 1);
            assert(active@ =~= name@);
        }
    }
}


/// `s` without leading and trailing white space.
pub open spec fn trimmed(s: Seq<char>) -> Seq<char>
    decreases s.len(),
{
    if s.len() > 0 && is_space(s[0]) {
        trimmed(s.drop_first())
    } else if s.len() > 0 && is_space(s.last()) {
        trimmed(s.drop_last())
    } else {
        s
    }
}

/// The parts of `s` between commas, in order: one more than there are commas.
pub open spec fn comma_parts(s: Seq<char>) -> Seq<Seq<char>>
    decreases s.len(),
{
    if s.len() == 0 {
        seq![Seq::empty()]
    } else {
        let prev = comma_parts(s.drop_last());
        if s.last() == ',' {
            prev.push(Seq::empty())
        } else {
            prev.drop_last().push(prev.last().push(s.last()))
        }
    }
}

/// The stop words of a comma-separated list: its parts, trimmed.
pub open spec fn stopword_list(s: Seq<char>) -> Seq<Seq<char>> {
    comma_parts(s).map_values(|p: Seq<char>| trimmed(p))
}

/// `s` without leading and trailing white space.
fn trim(s: &Vec<char>) -> (r: Vec<char>)
    ensures
        r@ == trimmed(s@),
{
    let mut start: usize = 0;
    let mut end: usize = s.len();
    assert(s@.subrange(0, s@.len() as int) =~= s@);
    while start < end && is_whitespace(s[start])
        invariant
            0 <= start <= end <= s.len(),
            end == s.len(),
            trimmed(s@) == trimmed(s@.subrange(start as int, end as int)),
        decreases end - start,
    {
        assert(s@.subrange(start as int, end as int).drop_first() == s@.subrange(start + 1, end as int));
        start = start + 1;
    }
    while start < end && is_whitespace(s[end - 1])
        invariant
            0 <= start <= end <= s.len(),
            start == end || !is_space(s@[start as int]),
            trimmed(s@) == trimmed(s@.subrange(start as int, end as int)),
        decreases end - start,
    {
        assert(s@.subrange(start as int, end as int).drop_last() == s@.subrange(start as int, end - 1));
        end = end - 1;
    }
    let mut r: Vec<char> = Vec::new();
    let mut i = start;
    while i < end
        invariant
            start <= i <= end <= s.len(),
            r@ == s@.subrange(start as int, i as int),
        decreases end - i,
    {
        r.push(s[i]);
        i = i + 1;
        assert(s@.subrange(start as int, i as int) == s@.subrange(start as int, i - 1 as int).push(s@[i - 1]));
    }
    r
}

/// The stop words of a comma-separated list: its parts, with surrounding white space removed.
pub fn parse_stopwords(list: &str) -> (r: Vec<String>)
    ensures
        r@.len() == stopword_list(list@).len(),
        forall|j: int| 0 <= j < r@.len() ==> #[trigger] r@[j]@ == stopword_list(list@)[j],
{
    let cs = chars_of(list);
    let mut parts: Vec<Vec<char>> = Vec::new();
    let mut cur: Vec<char> = Vec::new();
    let mut i: usize = 0;
    while i < cs.len()
        invariant
            0 <= i <= cs.len(),
            cs@ == list@,
            parts@.map_values(|p: Vec<char>| p@).push(cur@) == comma_parts(cs@.take(i as int)),
        decreases cs.len() - i,
    {
        let c = cs[i];
        assert(cs@.take(i + 1 as int).drop_last() == cs@.take(i as int));
        let ghost prev = comma_parts(cs@.take(i as int));
        if c == ',' {
            let done = cur;
            cur = Vec::new();
            parts.push(done);
            assert(parts@.map_values(|p: Vec<char>| p@).push(cur@) =~= prev.push(Seq::empty()));
        } else {
            cur.push(c);
            assert(parts@.map_values(|p: Vec<char>| p@).push(cur@) =~= prev.drop_last().push(prev.last().push(c)));
        }
        i = i + 1;
    }
    assert(cs@.take(cs.len() as int) == cs@);
    parts.push(cur);
    let ghost all = parts@.map_values(|p: Vec<char>| p@);
    assert(all == comma_parts(cs@));
    let mut out: Vec<String> = Vec::new();
    let mut k: usize = 0;
    while k < parts.len()
        invariant
            0 <= k <= parts.len(),
            all == parts@.map_values(|p: Vec<char>| p@),
            out@.len() == k,
            forall|j: int| 0 <= j < k ==> #[trigger] out@[j]@ == trimmed(all[j]),
        decreases parts.len() - k,
    {
        let w = string_of(&trim(&parts[k]));
        out.push(w);
        k = k + 1;
    }
    out
}

/// How far a run has come: the entities read, and those that could not be processed.
pub struct Progress {
    pub entities_read: u64,
    pub errorneous_articles: u64,
}

/// How many entities pass between two progress reports.
pub const REPORT_EVERY: u64 = 500;

impl Progress {
    /// Nothing read yet.
    pub fn new() -> (r: Progress)
        ensures
            r.entities_read == 0,
            r.errorneous_articles == 0,
    {
        Progress { entities_read: 0, errorneous_articles: 0 }
    }

    /// Counts one more entity, and one more error if it failed. Returns whether a progress
    /// report is due, which it is after every `REPORT_EVERY` entities.
    pub fn record(&mut self, failed: bool) -> (report: bool)
        requires
            old(self).entities_read < u64::MAX,
            old(self).errorneous_articles <= old(self).entities_read,
        ensures
            final(self).entities_read == old(self).entities_read + 1,
            final(self).errorneous_articles == old(self).errorneous_articles + if failed {
                1u64
            } else {
                0u64
            },
            final(self).errorneous_articles <= final(self).entities_read,
            report == (final(self).entities_read % REPORT_EVERY == 0),
    {
        self.entities_read = self.entities_read + 1;
        if failed {
            self.errorneous_articles = self.errorneous_articles + 1;
        }
        self.entities_read % REPORT_EVERY == 0
    }
}

} // verus!
