//! Common pieces of the sources: reading links out of HTML.
use vstd::prelude::*;

verus! {

/// The tags of the HTML text `doc`, in order, each as its name and its attribute text.
pub uninterp spec fn html_tags_of(doc: Seq<char>) -> Seq<(Seq<char>, Seq<char>)>;

/// The attributes in the attribute text `attrs` of a tag, in order, each as name and value.
pub uninterp spec fn html_attributes_of(attrs: Seq<char>) -> Seq<(Seq<char>, Seq<char>)>;

/// The views of pairs of strings.
pub open spec fn pair_views(v: Seq<(String, String)>) -> Seq<(Seq<char>, Seq<char>)> {
    v.map_values(|p: (String, String)| (p.0@, p.1@))
}

/// Relies on htmlstream's `tag_iter`: the tags of an HTML text in order, with their names and
/// attribute texts; the outcome depends on the text alone.
#[verifier::external_body]
fn html_tags(doc: &str) -> (r: Vec<(String, String)>)
    ensures
        pair_views(r@) == html_tags_of(doc@),
{
    htmlstream::tag_iter(doc).map(|(_, tag)| (tag.name, tag.attributes)).collect()
}

/// Whether every character right after an `=` in `attrs` is ASCII. htmlstream's `attr_iter`
/// slices a quoted value one byte after the first `=` of its attribute, which is a character
/// boundary only then.
pub open spec fn attribute_text_sliceable(attrs: Seq<char>) -> bool {
    forall|i: int| 0 <= i < attrs.len() - 1 && attrs[i] == '=' ==> (#[trigger] attrs[i + 1] as u32) < 128
}

/// Relies on htmlstream's `attr_iter`: the attributes of an attribute text in order, with their
/// names and values; the outcome depends on the text alone. It does not panic where the
/// character after each `=` is ASCII.
#[verifier::external_body]
fn html_attributes(attrs: &str) -> (r: Vec<(String, String)>)
    requires
        attribute_text_sliceable(attrs@),
    ensures
        pair_views(r@) == html_attributes_of(attrs@),
{
    htmlstream::attr_iter(attrs).map(|(_, attr)| (attr.name, attr.value)).collect()
}

/// The values of the `href` attributes among `attrs`, in order.
pub open spec fn hrefs(attrs: Seq<(Seq<char>, Seq<char>)>) -> Seq<Seq<char>>
    decreases attrs.len(),
{
    if attrs.len() == 0 {
        Seq::empty()
    } else {
        let rest = hrefs(attrs.drop_last());
        if attrs.last().0 == "href"@ {
            rest.push(attrs.last().1)
        } else {
            rest
        }
    }
}

/// The link targets of the `<a>` tags among `tags`, in order. A tag whose attribute text has a
/// non-ASCII character right after an `=` is skipped: the attribute reader cannot split it.
pub open spec fn links(tags: Seq<(Seq<char>, Seq<char>)>) -> Seq<Seq<char>>
    decreases tags.len(),
{
    if tags.len() == 0 {
        Seq::empty()
    } else {
        let rest = links(tags.drop_last());
        if tags.last().0 == "a"@ && attribute_text_sliceable(tags.last().1) {
            rest + hrefs(html_attributes_of(tags.last().1))
        } else {
            rest
        }
    }
}

/// Whether every character right after an `=` in `attrs` is ASCII.
fn is_sliceable(attrs: &String) -> (r: bool)
    ensures
        r == attribute_text_sliceable(attrs@),
{
    let cs = crate::text::chars_of(attrs.as_str());
    let mut i: usize = 0;
    while i < cs.len()
        invariant
            i <= cs.len(),
            cs@ == attrs@,
            forall|j: int| 0 <= j < i && j < cs@.len() - 1 && cs@[j] == '=' ==> (#[trigger] cs@[j + 1] as u32) < 128,
        decreases cs.len() - i,
    {
        if i + 1 < cs.len() && cs[i] == '=' && (cs[i + 1] as u32) >= 128 {
            assert(cs@[i as int] == '=' && !((cs@[i + 1] as u32) < 128));
            return false;
        }
        i = i + 1;
    }
    true
}

/// The values of the `href` attributes among `attrs`, given as (name, value), in order.
pub fn href_values(attrs: &Vec<(String, String)>) -> (r: Vec<String>)
    ensures
        r@.map_values(|s: String| s@) == hrefs(pair_views(attrs@)),
{
    let href = String::from_str("href");
    let ghost av = pair_views(attrs@);
    let mut out: Vec<String> = Vec::new();
    let mut j: usize = 0;
    while j < attrs.len()
        invariant
            0 <= j <= attrs.len(),
            href@ == "href"@,
            av == pair_views(attrs@),
            out@.map_values(|s: String| s@) == hrefs(av.take(j as int)),
        decreases attrs.len() - j,
    {
        assert(av.take(j + 1 as int).drop_last() == av.take(j as int));
        assert(av.take(j + 1 as int).last() == av[j as int]);
        if attrs[j].0 == href {
            let ghost before = out@;
            out.push(attrs[j].1.clone());
            assert(out@.map_values(|s: String| s@) =~= before.map_values(|s: String| s@).push(
                attrs@[j as int].1@,
            ));
        }
        j = j + 1;
    }
    assert(av.take(attrs.len() as int) == av);
    out
}

/// The targets of the links of an HTML document: the `href` values of its `<a>` tags, in
/// order; see `links`.
pub fn extract_links(document: &str) -> (r: Vec<String>)
    ensures
        r@.map_values(|s: String| s@) == links(html_tags_of(document@)),
{
    let tags = html_tags(document);
    let a = String::from_str("a");
    let ghost tv = pair_views(tags@);
    let mut out: Vec<String> = Vec::new();
    let mut i: usize = 0;
    while i < tags.len()
        invariant
            0 <= i <= tags.len(),
            a@ == "a"@,
            tv == pair_views(tags@),
            tv == html_tags_of(document@),
            out@.map_values(|s: String| s@) == links(tv.take(i as int)),
        decreases tags.len() - i,
    {
        assert(tv.take(i + 1 as int).drop_last() == tv.take(i as int));
        assert(tv.take(i + 1 as int).last() == tv[i as int]);
        if tags[i].0 == a && is_sliceable(&tags[i].1) {
            let attrs = html_attributes(tags[i].1.as_str());
            let found = href_values(&attrs);
            let ghost before = out@;
            let mut k: usize = 0;
            while k < found.len()
                invariant
                    0 <= k <= found.len(),
                    out@ == before + found@.take(k as int),
                decreases found.len() - k,
            {
                out.push(found[k].clone());
                k = k + 1;
                assert(found@.take(k as int) == found@.take(k - 1 as int).push(found@[k - 1]));
            }
            assert(found@.take(found.len() as int) == found@);
            assert(out@.map_values(|s: String| s@) =~= before.map_values(|s: String| s@) + found@.map_values(
                |s: String| s@,
            ));
        }
        i = i + 1;
    }
    assert(tv.take(tags.len() as int) == tv);
    out
}

} // verus!
