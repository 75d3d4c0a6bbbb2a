use vstd::prelude::*;

verus! {

/// A registered grammar source: its name, the git location it is cloned
/// from, and an optional commit that the local copy is pinned to.
#[derive(Debug, Clone)]
pub struct Language {
    pub name: String,
    pub git: String,
    pub hash: Option<String>,
}

/// The mathematical value of a `Language`.
pub struct LanguageView {
    pub name: Seq<char>,
    pub git: Seq<char>,
    pub hash: Option<Seq<char>>,
}

pub open spec fn opt_view(o: Option<String>) -> Option<Seq<char>> {
    match o {
        Some(s) => Some(s@),
        None => None,
    }
}

impl View for Language {
    type V = LanguageView;

    open spec fn view(&self) -> LanguageView {
        LanguageView { name: self.name@, git: self.git@, hash: opt_view(self.hash) }
    }
}

impl Language {
    pub fn new(name: String, git: String, hash: Option<String>) -> (r: Self)
        ensures
            r.name == name,
            r.git == git,
            r.hash == hash,
    {
        Language { name, git, hash }
    }
}

} // verus!
