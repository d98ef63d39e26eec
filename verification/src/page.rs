//! Pages, their slugs, and the definitions that references resolve to.

use crate::strmap::StrMap;
use crate::text::{join, lines, same_text, split, split_on};
use vstd::prelude::*;

verus! {

/// Whether a component of a path counts: it is neither empty nor `.`.
pub open spec fn counts(part: Seq<char>) -> bool {
    part.len() > 0 && part != seq!['.']
}

/// The components of `parts` that count, in order.
pub open spec fn kept(parts: Seq<Seq<char>>) -> Seq<Seq<char>>
    decreases parts.len(),
{
    if parts.len() == 0 {
        Seq::empty()
    } else if counts(parts.last()) {
        kept(parts.drop_last()).push(parts.last())
    } else {
        kept(parts.drop_last())
    }
}

/// The canonical form of a path: its components that count, joined by `/`.
pub open spec fn normalize(path: Seq<char>) -> Seq<char> {
    join(kept(split(path, '/')), '/')
}

/// The canonical form of the empty path is empty.
pub proof fn lemma_normalize_empty()
    ensures
        normalize(Seq::empty()) == Seq::<char>::empty(),
{
    let parts = split(Seq::<char>::empty(), '/');
    assert(parts =~= seq![Seq::<char>::empty()]);
    assert(parts.drop_last() =~= Seq::<Seq<char>>::empty());
    assert(kept(parts.drop_last()) =~= Seq::<Seq<char>>::empty());
    assert(!counts(parts.last()));
    assert(kept(parts) =~= Seq::<Seq<char>>::empty());
}

/// The canonical form of `path`.
pub fn normalize_path(path: &str) -> (out: String)
    ensures
        out@ == normalize(path@),
{
    let parts = split_on(path, '/');
    let ghost all = lines(parts@);
    let mut out = String::new();
    let mut first = true;
    let mut i: usize = 0;
    proof {
        reveal_strlit(".");
        assert(all.take(0) =~= Seq::<Seq<char>>::empty());
    }
    while i < parts.len()
        invariant
            i <= parts.len(),
            all == lines(parts@),
            "."@ == seq!['.'],
            first == (kept(all.take(i as int)).len() == 0),
            out@ == join(kept(all.take(i as int)), '/'),
        decreases parts.len() - i,
    {
        proof {
            assert(all.take(i + 1).drop_last() =~= all.take(i as int));
            assert(all.take(i + 1).last() == parts@[i as int]@);
        }
        let part = parts[i].as_str();
        let ghost before = kept(all.take(i as int));
        if !part.is_empty() && !same_text(part, ".") {
            if !first {
                out.push('/');
            }
            out.append(part);
            first = false;
            proof {
                let after = before.push(part@);
                assert(after.drop_last() =~= before);
                if before.len() == 0 {
                    assert(out@ =~= part@);
                }
            }
        }
        i = i + 1;
    }
    assert(all.take(parts.len() as int) =~= all);
    out
}

/// The identifier of a page: its path below the project's content
/// directory, without extension, in canonical form.
#[derive(Debug)]
pub struct Slug {
    text: String,
}

impl View for Slug {
    type V = Seq<char>;

    closed spec fn view(&self) -> Seq<char> {
        self.text@
    }
}

impl Clone for Slug {
    fn clone(&self) -> (copy: Self)
        ensures
            copy@ == self@,
    {
        Slug { text: self.text.clone() }
    }
}

impl PartialEq for Slug {
    fn eq(&self, other: &Slug) -> (r: bool) {
        same_text(self.text.as_str(), other.text.as_str())
    }
}

impl vstd::std_specs::cmp::PartialEqSpecImpl for Slug {
    open spec fn obeys_eq_spec() -> bool {
        true
    }

    open spec fn eq_spec(&self, other: &Slug) -> bool {
        self@ == other@
    }
}

impl Eq for Slug {

}

/// Where the page `slug` is written below `root`: in a directory of its own
/// with pretty URLs, else in a file named after it.
pub open spec fn output_path(root: Seq<char>, slug: Seq<char>, pretty_url: bool) -> Seq<char> {
    if pretty_url {
        root.push('/') + slug + "/index.html"@
    } else {
        root.push('/') + slug + ".html"@
    }
}

impl Slug {
    /// The slug of the path `slug`.
    pub fn new(slug: String) -> (s: Slug)
        ensures
            s@ == normalize(slug@),
    {
        Slug { text: normalize_path(slug.as_str()) }
    }

    /// The slug's text.
    pub fn as_str(&self) -> (s: &str)
        ensures
            s@ == self@,
    {
        self.text.as_str()
    }

    /// Where the page is written below `root`.
    pub fn create_output_path(&self, root: &str, pretty_url: bool) -> (path: String)
        ensures
            path@ == output_path(root@, self@, pretty_url),
    {
        let mut path = root.to_owned();
        path.push('/');
        path.append(self.text.as_str());
        if pretty_url {
            path.append("/index.html");
        } else {
            path.append(".html");
        }
        path
    }
}

/// What a reference resolves to: a title and the page that defines it.
#[derive(Debug)]
pub struct RefDef {
    pub title: String,
    pub slug: Slug,
}

/// The mathematical value of a [`RefDef`].
pub ghost struct RefDefModel {
    pub title: Seq<char>,
    pub slug: Seq<char>,
}

impl View for RefDef {
    type V = RefDefModel;

    open spec fn view(&self) -> RefDefModel {
        RefDefModel { title: self.title@, slug: self.slug@ }
    }
}

impl RefDef {
    /// The definition with title `title` on the page `slug`.
    pub fn new(title: &str, slug: &Slug) -> (r: RefDef)
        ensures
            r@ == (RefDefModel { title: title@, slug: slug@ }),
    {
        RefDef { title: title.to_owned(), slug: slug.clone() }
    }
}

/// A page after its evaluation. Its body may still hold placeholders.
#[derive(Debug)]
pub struct Page {
    pub source_path: String,
    pub slug: Slug,
    pub body: String,
    pub theme_config: StrMap<String>,
}

impl Page {
    /// The page's title: what its theme configuration holds under `title`,
    /// empty where it holds nothing.
    pub fn title(&self) -> (title: String)
        ensures
            title@ == (if self.theme_config@.contains_key("title"@) {
                self.theme_config@["title"@]
            } else {
                Seq::empty()
            }),
    {
        match self.theme_config.get("title") {
            Some(title) => title.clone(),
            None => String::new(),
        }
    }
}

} // verus!
