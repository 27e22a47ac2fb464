//! Site content URLs.
//!
//! Every piece of content hangs under one base section of the site. A
//! [`ContentUrl`] is a base plus the sub-paths dived into so far, and each
//! accessor states the exact character sequence it produces.

use vstd::prelude::*;

verus! {

/// The base sections content can hang under.
#[derive(Clone, Copy, Debug, PartialEq, Eq, Structural)]
pub enum Base {
    Shared,
    Home,
    Blog,
    Bus,
    Blender,
    Training,
}

/// The lower-case name of a base section.
pub open spec fn spec_base_name(b: Base) -> Seq<char> {
    match b {
        Base::Shared => "shared"@,
        Base::Home => "home"@,
        Base::Blog => "blog"@,
        Base::Bus => "bus"@,
        Base::Blender => "blender"@,
        Base::Training => "training"@,
    }
}

impl Base {
    /// The lower-case name of this base section.
    pub fn as_str(&self) -> (r: &'static str)
        ensures
            r@ == spec_base_name(*self),
    {
        match self {
            Base::Shared => "shared",
            Base::Home => "home",
            Base::Blog => "blog",
            Base::Bus => "bus",
            Base::Blender => "blender",
            Base::Training => "training",
        }
    }
}

/// A URL into the site's content: a base section and the sub-paths dived
/// into so far.
#[derive(Debug)]
pub struct ContentUrl {
    base: Base,
    children: Vec<String>,
}

/// The root URL of a base: `/` for the home section, `/<name>` for others.
pub open spec fn spec_base_url(b: Base) -> Seq<char> {
    match b {
        Base::Home => "/"@,
        _ => "/"@ + spec_base_name(b),
    }
}

/// The sub-paths rendered in order, each behind one `/`.
pub open spec fn spec_children_path(cs: Seq<Seq<char>>) -> Seq<char>
    decreases cs.len(),
{
    if cs.len() == 0 {
        Seq::empty()
    } else {
        spec_children_path(cs.drop_last()) + "/"@ + cs.last()
    }
}

/// The URL of a content value: its base's root with its sub-paths appended.
pub open spec fn spec_url(v: (Base, Seq<Seq<char>>)) -> Seq<char> {
    spec_base_url(v.0) + spec_children_path(v.1)
}

/// A leading slash removed, if the text has one.
pub open spec fn spec_strip_slash(u: Seq<char>) -> Seq<char> {
    if u.len() > 0 && u[0] == '/' {
        u.subrange(1, u.len() as int)
    } else {
        u
    }
}

impl View for ContentUrl {
    type V = (Base, Seq<Seq<char>>);

    closed spec fn view(&self) -> (Base, Seq<Seq<char>>) {
        (self.base, self.children@.map_values(|c: String| c@))
    }
}

impl ContentUrl {
    /// A fresh URL at the root of the given base section.
    pub fn new(base: Base) -> (r: Self)
        ensures
            r@ == (base, Seq::<Seq<char>>::empty()),
    {
        let r = ContentUrl { base, children: Vec::new() };
        proof {
            assert(r@.1 =~= Seq::<Seq<char>>::empty());
        }
        r
    }

    /// Make this URL go deeper by the given sub-path: after diving into
    /// `sub`, [`ContentUrl::url`] returns what it did before with `/sub`
    /// appended.
    pub fn dive(&mut self, sub: &str)
        ensures
            final(self)@.0 == old(self)@.0,
            final(self)@.1 == old(self)@.1.push(sub@),
    {
        let ghost pre = self.children@;
        self.children.push(String::from_str(sub));
        proof {
            crate::seqs::lemma_map_push(pre, |c: String| c@, self.children@.last());
        }
    }

    /// The URL to this content.
    pub fn url(&self) -> (r: String)
        ensures
            r@ == spec_url(self@),
    {
        let mut s: String = match self.base {
            Base::Home => String::from_str("/"),
            _ => {
                let mut b = String::from_str("/");
                b.append(self.base.as_str());
                b
            },
        };
        let ghost cs = self@.1;
        let mut i: usize = 0;
        proof {
            assert(cs.take(0) =~= Seq::<Seq<char>>::empty());
            assert(s@ + spec_children_path(cs.take(0)) =~= s@);
        }
        let ghost base_part = s@;
        while i < self.children.len()
            invariant
                i <= self.children@.len(),
                cs == self@.1,
                cs.len() == self.children@.len(),
                forall|k: int| 0 <= k < cs.len() ==> cs[k] == (#[trigger] self.children@[k])@,
                s@ == base_part + spec_children_path(cs.take(i as int)),
            decreases self.children@.len() - i,
        {
            proof {
                let q = cs.take(i + 1);
                assert(q.drop_last() =~= cs.take(i as int));
                assert(q.last() == cs[i as int]);
            }
            s.append("/");
            s.append(self.children[i].as_str());
            proof {
                assert(s@ =~= base_part + spec_children_path(cs.take(i + 1)));
            }
            i = i + 1;
        }
        proof {
            assert(cs.take(cs.len() as int) =~= cs);
        }
        s
    }

    /// The URL to this content with one more fragment appended; a leading
    /// slash on the fragment is dropped first.
    pub fn suburl(&self, url: &str) -> (r: String)
        ensures
            r@ == spec_url(self@) + "/"@ + spec_strip_slash(url@),
    {
        let n = url.unicode_len();
        let stripped: &str = if n > 0 && url.get_char(0) == '/' {
            url.substring_char(1, n)
        } else {
            url
        };
        let mut s = self.url();
        s.append("/");
        s.append(stripped);
        s
    }

    /// The path of an image belonging to this content's base section.
    pub fn image(&self, image_name: &str) -> (r: String)
        ensures
            r@ == "/static/img/"@ + spec_base_name(self@.0) + "/"@ + image_name@,
    {
        let mut s = String::from_str("/static/img/");
        s.append(self.base.as_str());
        s.append("/");
        s.append(image_name);
        s
    }

    /// The path of a CSS file belonging to this content's base section.
    pub fn css(&self, css_name: &str) -> (r: String)
        ensures
            r@ == "/static/css/"@ + spec_base_name(self@.0) + "/"@ + css_name@,
    {
        let mut s = String::from_str("/static/css/");
        s.append(self.base.as_str());
        s.append("/");
        s.append(css_name);
        s
    }

    /// The path of the CSS shared by the whole site.
    pub fn base_css() -> (r: String)
        ensures
            r@ == "/static/css/"@ + "shared"@ + "/"@ + "shared.css"@,
    {
        Self::new(Base::Shared).css("shared.css")
    }
}

} // verus!
