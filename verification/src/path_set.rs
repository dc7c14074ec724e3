use vstd::hash_set::StringHashSet;
use vstd::prelude::*;

use crate::paths;
use crate::paths::{FilePath, PathModel};

verus! {

/// A set of paths. Texts that stand for the same path are one member.
pub struct PathSet {
    /// The shortest text of each member.
    keys: StringHashSet,
}

/// The paths that texts stand for.
pub open spec fn paths_of(keys: Set<Seq<char>>) -> Set<PathModel> {
    keys.map(|key: Seq<char>| paths::path_of(key))
}

impl View for PathSet {
    type V = Set<PathModel>;

    closed spec fn view(&self) -> Set<PathModel> {
        paths_of(self.keys@)
    }
}

/// A key stands for its path alone: it is that path's shortest text.
spec fn is_key(key: Seq<char>) -> bool {
    key == paths::render(paths::path_of(key))
}

impl PathSet {
    #[verifier::type_invariant]
    spec fn wf(self) -> bool {
        &&& self.keys@.finite()
        &&& forall|key: Seq<char>| #[trigger] self.keys@.contains(key) ==> is_key(key)
    }

    /// A set without members.
    pub fn new() -> (r: PathSet)
        ensures
            r@ == Set::<PathModel>::empty(),
    {
        let r = PathSet { keys: StringHashSet::new() };
        assert(r@ =~= Set::<PathModel>::empty());
        r
    }

    /// Whether the set has `path`.
    pub fn contains(&self, path: &FilePath) -> (r: bool)
        ensures
            r == self@.contains(path@),
    {
        proof {
            use_type_invariant(self);
            lemma_member(self.keys@, path.text@);
        }
        self.keys.contains(path.canonical().as_str())
    }

    /// Adds `path`, and says whether it was missing.
    pub fn insert(&mut self, path: &FilePath) -> (r: bool)
        ensures
            final(self)@ == old(self)@.insert(path@),
            r == !old(self)@.contains(path@),
    {
        proof {
            use_type_invariant(&*self);
            lemma_member(self.keys@, path.text@);
            lemma_insert(self.keys@, path.text@);
        }
        let mut keys = StringHashSet::new();
        std::mem::swap(&mut keys, &mut self.keys);
        let added = keys.insert(path.canonical());
        self.keys = keys;
        added
    }

    /// The number of members.
    pub fn len(&self) -> (r: usize)
        ensures
            r == self@.len(),
    {
        proof {
            use_type_invariant(self);
            lemma_paths_are_distinct(self.keys@);
        }
        self.keys.len()
    }
}

proof fn lemma_member(keys: Set<Seq<char>>, text: Seq<char>)
    requires
        forall|key: Seq<char>| #[trigger] keys.contains(key) ==> is_key(key),
    ensures
        paths_of(keys).contains(paths::path_of(text)) <==> keys.contains(
            paths::render(paths::path_of(text)),
        ),
{
    let path = paths::path_of(text);
    let key = paths::render(path);
    paths::lemma_path_of_wf(text);
    paths::lemma_render_round_trip(path);
    if paths_of(keys).contains(path) {
        let other = choose|k: Seq<char>| #[trigger] keys.contains(k) && path == paths::path_of(k);
        assert(is_key(other));
    }
}

proof fn lemma_insert(keys: Set<Seq<char>>, text: Seq<char>)
    ensures
        paths_of(keys.insert(paths::render(paths::path_of(text)))) == paths_of(keys).insert(
            paths::path_of(text),
        ),
        is_key(paths::render(paths::path_of(text))),
{
    let path = paths::path_of(text);
    let key = paths::render(path);
    paths::lemma_path_of_wf(text);
    paths::lemma_render_round_trip(path);
    let more = keys.insert(key);
    assert forall|p: PathModel| paths_of(more).contains(p) <==> paths_of(keys).insert(path).contains(
        p,
    ) by {
        if paths_of(more).contains(p) {
            let k = choose|k: Seq<char>| #[trigger] more.contains(k) && p == paths::path_of(k);
            assert(k == key || keys.contains(k));
        }
        if p == path {
            assert(more.contains(key));
        } else if paths_of(keys).contains(p) {
            let k = choose|k: Seq<char>| #[trigger] keys.contains(k) && p == paths::path_of(k);
            assert(more.contains(k));
        }
    }
    assert(paths_of(more) =~= paths_of(keys).insert(path));
}

proof fn lemma_paths_are_distinct(keys: Set<Seq<char>>)
    requires
        keys.finite(),
        forall|key: Seq<char>| #[trigger] keys.contains(key) ==> is_key(key),
    ensures
        paths_of(keys).finite(),
        paths_of(keys).len() == keys.len(),
    decreases keys.len(),
{
    if keys.len() == 0 {
        assert(paths_of(keys) =~= Set::<PathModel>::empty());
    } else {
        let key = keys.choose();
        let rest = keys.remove(key);
        lemma_paths_are_distinct(rest);
        assert(is_key(key));
        lemma_insert(rest, key);
        assert(rest.insert(key) =~= keys);
        lemma_member(rest, key);
    }
}

} // verus!
