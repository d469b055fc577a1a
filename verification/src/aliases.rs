//! Names that a file system without case, or with another normalization, would take for one.
use crate::outside::{decompose, lower, lowercase, nfd};
use crate::path::{path_text, LocalPath};
use crate::path_map::PathMap;
use crate::text::text_of;
use vstd::prelude::*;

verus! {

/// The lower-case forms of the characters of a text, in their order.
pub open spec fn lowercased(text: Seq<char>) -> Seq<char>
    decreases text.len(),
{
    if text.len() == 0 {
        seq![]
    } else {
        lowercased(text.drop_last()) + lowercase(text.last())
    }
}

/// What is left of a path once case and normalization are taken away.
pub open spec fn alias(path: Seq<Seq<char>>) -> Seq<char> {
    lowercased(nfd(path_text(path)))
}

/// Whether different paths of a list always differ in more than case and normalization.
pub open spec fn alias_free(paths: Seq<Seq<Seq<char>>>) -> bool {
    forall|i: int, j: int|
        0 <= i < paths.len() && 0 <= j < paths.len() && alias(#[trigger] paths[i]) == alias(
            #[trigger] paths[j],
        ) ==> paths[i] == paths[j]
}

/// Whether different paths of a set always differ in more than case and normalization.
pub open spec fn no_aliases(paths: Set<Seq<Seq<char>>>) -> bool {
    forall|p: Seq<Seq<char>>, q: Seq<Seq<char>>|
        paths.contains(p) && paths.contains(q) && #[trigger] alias(p) == #[trigger] alias(q) ==> p
            == q
}

/// Whether `at` is the first place of a list where a path is an alias of a different one before
/// it, which stands at `other`.
pub open spec fn first_alias(paths: Seq<Seq<Seq<char>>>, other: int, at: int) -> bool {
    &&& 0 <= other < at < paths.len()
    &&& alias(paths[other]) == alias(paths[at])
    &&& paths[other] != paths[at]
    &&& alias_free(paths.take(at))
}

/// The alias of a path.
pub fn alias_key(path: &LocalPath) -> (key: String)
    ensures
        key@ == alias(path@),
{
    let chars = decompose(path.text().as_str());
    let mut key: Vec<char> = Vec::new();
    let mut i: usize = 0;
    while i < chars.len()
        invariant
            i <= chars.len(),
            key@ == lowercased(chars@.take(i as int)),
        decreases chars.len() - i,
    {
        let mut lowered = lower(chars[i]);
        let ghost before = key@;
        let ghost c = chars@[i as int];
        key.append(&mut lowered);
        i += 1;
        proof {
            let front = chars@.take(i as int);
            assert(front.drop_last() =~= chars@.take(i - 1));
            assert(front.last() == c);
            assert(key@ =~= before + lowercase(c));
        }
    }
    assert(chars@.take(i as int) =~= chars@);
    text_of(&key)
}

/// Two different paths that are aliases: the one seen first, then the other.
#[derive(Debug, Clone, PartialEq, Eq)]
pub struct Collision {
    pub first: LocalPath,
    pub second: LocalPath,
}

/// The paths that were seen so far, by their aliases.
struct Names {
    seen: PathMap<LocalPath>,
}

/// The key under which an alias is kept.
spec fn name_key(alias: Seq<char>) -> Seq<Seq<char>> {
    seq![alias]
}

impl Names {
    /// Holds the paths of `list`, which are free of aliases, each under its own alias.
    spec fn holds(&self, list: Seq<Seq<Seq<char>>>) -> bool {
        &&& self.seen.wf()
        &&& alias_free(list)
        &&& forall|i: int|
            0 <= i < list.len() ==> self.seen@.contains_key(name_key(alias(#[trigger] list[i])))
        &&& forall|key: Seq<Seq<char>>| #[trigger]
            self.seen@.contains_key(key) ==> list.contains(self.seen@[key]@) && key == name_key(
                alias(self.seen@[key]@),
            )
    }

    /// Adds a path, or finds the path of which it is an alias.
    fn add(&mut self, path: &LocalPath, Ghost(list): Ghost<Seq<Seq<Seq<char>>>>) -> (other: Option<
        LocalPath,
    >)
        requires
            old(self).holds(list),
        ensures
            match other {
                Some(other) => exists|i: int|
                    0 <= i < list.len() && #[trigger] list[i] == other@ && alias(other@) == alias(
                        path@,
                    ) && other@ != path@,
                None => final(self).holds(list.push(path@)),
            },
    {
        let mut components: Vec<String> = Vec::new();
        components.push(alias_key(path));
        let key = LocalPath { components };
        assert(key@ =~= name_key(alias(path@)));
        if let Some(other) = self.seen.get(&key) {
            let ghost at = list.index_of(other@);
            assert(list.contains(other@));
            assert(name_key(alias(other@))[0] == name_key(alias(path@))[0]);
            if !other.same(path) {
                assert(list[at] == other@);
                return Some(other.duplicate());
            }
        }
        let ghost before = *self;
        self.seen.insert(key, path.duplicate());
        proof {
            let full = list.push(path@);
            let key = name_key(alias(path@));
            assert forall|i: int|
                0 <= i < list.len() && alias(#[trigger] list[i]) == alias(path@) implies list[i]
                == path@ by {
                assert(before.seen@.contains_key(key));
                let kept = before.seen@[key]@;
                assert(list.contains(kept));
                assert(name_key(alias(kept))[0] == key[0]);
                let k = list.index_of(kept);
                assert(list[k] == kept);
            }
            assert forall|i: int, j: int|
                0 <= i < full.len() && 0 <= j < full.len() && alias(#[trigger] full[i]) == alias(
                    #[trigger] full[j],
                ) implies full[i] == full[j] by {
                if i < list.len() && j < list.len() {
                    assert(list[i] == full[i] && list[j] == full[j]);
                } else if i < list.len() {
                    assert(list[i] == full[i]);
                } else if j < list.len() {
                    assert(list[j] == full[j]);
                }
            }
            assert forall|i: int| 0 <= i < full.len() implies self.seen@.contains_key(
                name_key(alias(#[trigger] full[i])),
            ) by {
                if i < list.len() {
                    assert(list[i] == full[i]);
                }
            }
            assert(full[list.len() as int] == path@);
            assert forall|k: Seq<Seq<char>>| #[trigger] self.seen@.contains_key(k) implies full.contains(
                self.seen@[k]@,
            ) && k == name_key(alias(self.seen@[k]@)) by {
                if k != key {
                    assert(before.seen@.contains_key(k));
                    let i = list.index_of(before.seen@[k]@);
                    assert(full[i] == before.seen@[k]@);
                }
            }
        }
        None
    }
}

/// Checks that no two different paths, local or remote, are aliases of one another. The local
/// paths come first, each side in the order of its paths.
pub fn check_aliases<A, B>(local: &PathMap<A>, remote: &PathMap<B>) -> (outcome: Result<
    (),
    Collision,
>)
    requires
        local.wf(),
        remote.wf(),
    ensures
        match outcome {
            Ok(()) => alias_free(local.keys() + remote.keys()) && no_aliases(
                local@.dom().union(remote@.dom()),
            ),
            Err(collision) => exists|i: int, j: int| #[trigger]
                first_alias(local.keys() + remote.keys(), i, j) && (local.keys()
                    + remote.keys())[i] == collision.first@ && (local.keys() + remote.keys())[j]
                    == collision.second@,
        },
{
    let ghost all = local.keys() + remote.keys();
    let mut names = Names { seen: PathMap::new() };
    let mut i: usize = 0;
    assert(all.take(0) =~= seq![]);
    while i < local.len()
        invariant
            local.wf(),
            remote.wf(),
            all == local.keys() + remote.keys(),
            i <= local.keys().len(),
            names.holds(all.take(i as int)),
        decreases local.keys().len() - i,
    {
        let path = local.key_at(i);
        assert(all[i as int] == path@);
        if let Some(other) = names.add(path, Ghost(all.take(i as int))) {
            proof {
                let k = choose|k: int|
                    0 <= k < i && #[trigger] all.take(i as int)[k] == other@ && alias(other@)
                        == alias(path@) && other@ != path@;
                assert(all[k] == other@);
                assert(first_alias(all, k, i as int));
            }
            return Err(Collision { first: other, second: path.duplicate() });
        }
        assert(all.take(i as int).push(path@) =~= all.take(i + 1));
        i += 1;
    }
    let mut j: usize = 0;
    while j < remote.len()
        invariant
            local.wf(),
            remote.wf(),
            all == local.keys() + remote.keys(),
            j <= remote.keys().len(),
            names.holds(all.take(local.keys().len() + j)),
        decreases remote.keys().len() - j,
    {
        let path = remote.key_at(j);
        let ghost at = local.keys().len() + j;
        assert(all[at] == path@);
        if let Some(other) = names.add(path, Ghost(all.take(at))) {
            proof {
                let k = choose|k: int|
                    0 <= k < at && #[trigger] all.take(at)[k] == other@ && alias(other@) == alias(
                        path@,
                    ) && other@ != path@;
                assert(all[k] == other@);
                assert(first_alias(all, k, at));
            }
            return Err(Collision { first: other, second: path.duplicate() });
        }
        assert(all.take(at).push(path@) =~= all.take(at + 1));
        j += 1;
    }
    assert(all.take(local.keys().len() + j) =~= all);
    proof {
        local.lemma_keys();
        remote.lemma_keys();
        let paths = local@.dom().union(remote@.dom());
        assert forall|p: Seq<Seq<char>>| paths.contains(p) implies #[trigger] all.contains(p) by {
            if local@.contains_key(p) {
                assert(all[local.keys().index_of(p)] == p);
            } else {
                assert(all[local.keys().len() + remote.keys().index_of(p)] == p);
            }
        }
        assert forall|p: Seq<Seq<char>>, q: Seq<Seq<char>>|
            paths.contains(p) && paths.contains(q) && #[trigger] alias(p) == #[trigger] alias(
                q,
            ) implies p == q by {
            assert(all.contains(p) && all.contains(q));
            assert(all[all.index_of(p)] == p && all[all.index_of(q)] == q);
        }
    }
    Ok(())
}

/// The alias of a path is that of its normalized text, character by character: texts that only differ
/// in case, at whatever place, have one alias.
pub proof fn lemma_case_does_not_matter(a: Seq<char>, b: Seq<char>)
    requires
        a.len() == b.len(),
        forall|i: int| 0 <= i < a.len() ==> lowercase(#[trigger] a[i]) == lowercase(b[i]),
    ensures
        lowercased(a) == lowercased(b),
    decreases a.len(),
{
    if a.len() > 0 {
        assert(lowercase(a[a.len() - 1]) == lowercase(b[b.len() - 1]));
        lemma_case_does_not_matter(a.drop_last(), b.drop_last());
    }
}

/// The lower case of a text is made of that of its parts, and nothing gets lost on the way.
pub proof fn lemma_lower_case_of_parts(a: Seq<char>, b: Seq<char>, c: char)
    ensures
        lowercased(seq![c]) == lowercase(c),
        lowercased(a + b) == lowercased(a) + lowercased(b),
    decreases b.len(),
{
    reveal_with_fuel(lowercased, 2);
    assert(seq![c].drop_last() =~= Seq::<char>::empty());
    assert(Seq::<char>::empty() + lowercase(c) =~= lowercase(c));
    if b.len() == 0 {
        assert(a + b =~= a);
        assert(lowercased(a) + lowercased(b) =~= lowercased(a));
    } else {
        lemma_lower_case_of_parts(a, b.drop_last(), c);
        assert((a + b).drop_last() =~= a + b.drop_last());
        assert((lowercased(a) + lowercased(b.drop_last())) + lowercase(b.last()) =~= lowercased(a)
            + (lowercased(b.drop_last()) + lowercase(b.last())));
    }
}

/// Paths whose texts have one normal form are aliases, and so are those whose normal forms only
/// differ in case.
pub proof fn lemma_normalization_does_not_matter(p: Seq<Seq<char>>, q: Seq<Seq<char>>)
    ensures
        nfd(path_text(p)) == nfd(path_text(q)) ==> alias(p) == alias(q),
        lowercased(nfd(path_text(p))) == lowercased(nfd(path_text(q))) <==> alias(p) == alias(q),
{
}

} // verus!
