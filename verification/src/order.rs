//! The order of texts, path components and paths.
use crate::text::{chars_of, texts};
use vstd::prelude::*;

verus! {

/// The outcome of a three-way comparison.
#[derive(Debug, Clone, Copy, PartialEq, Eq, Structural)]
pub enum Rank {
    Less,
    Equal,
    Greater,
}

/// Whether `less` orders its values strictly and totally.
pub open spec fn strict_order<T>(less: spec_fn(T, T) -> bool) -> bool {
    &&& forall|x: T| !(#[trigger] less(x, x))
    &&& forall|x: T, y: T, z: T| #[trigger] less(x, y) && #[trigger] less(y, z) ==> less(x, z)
    &&& forall|x: T, y: T| x == y || #[trigger] less(x, y) || less(y, x)
}

/// Whether `a` and `b` agree before position `i` and `a` comes first from there on.
pub open spec fn splits_at<T>(a: Seq<T>, b: Seq<T>, less: spec_fn(T, T) -> bool, i: int) -> bool {
    &&& 0 <= i < b.len()
    &&& i <= a.len()
    &&& forall|k: int| 0 <= k < i ==> a[k] == b[k]
    &&& i < a.len() ==> less(a[i], b[i])
}

/// The dictionary order: at the first difference the lesser element decides, and a proper
/// prefix comes first.
pub open spec fn lex_less<T>(a: Seq<T>, b: Seq<T>, less: spec_fn(T, T) -> bool) -> bool {
    exists|i: int| splits_at(a, b, less, i)
}

/// The dictionary order over a strict total order is one itself.
pub proof fn lemma_lex_order<T>(less: spec_fn(T, T) -> bool)
    requires
        strict_order(less),
    ensures
        strict_order(|a: Seq<T>, b: Seq<T>| lex_less(a, b, less)),
{
    let lex = |a: Seq<T>, b: Seq<T>| lex_less(a, b, less);
    assert forall|a: Seq<T>| !(#[trigger] lex(a, a)) by {
        if lex_less(a, a, less) {
            let i = choose|i: int| splits_at(a, a, less, i);
            assert(less(a[i], a[i]));
        }
    }
    assert forall|a: Seq<T>, b: Seq<T>, c: Seq<T>| #[trigger] lex(a, b) && #[trigger] lex(b, c) implies lex(
        a,
        c,
    ) by {
        let i = choose|i: int| splits_at(a, b, less, i);
        let j = choose|j: int| splits_at(b, c, less, j);
        if i < j {
            assert(splits_at(a, c, less, i));
        } else if j < i {
            assert(splits_at(a, c, less, j));
        } else {
            if i < a.len() {
                assert(less(a[i], b[i]) && less(b[i], c[i]));
            }
            assert(splits_at(a, c, less, i));
        }
    }
    assert forall|a: Seq<T>, b: Seq<T>| a == b || #[trigger] lex(a, b) || lex(b, a) by {
        let i = first_difference(a, b);
        lemma_first_difference(a, b);
        if i < a.len() && i < b.len() {
            assert(a[i] != b[i]);
            assert(less(a[i], b[i]) || less(b[i], a[i]));
            if less(a[i], b[i]) {
                assert(splits_at(a, b, less, i));
            } else {
                assert(splits_at(b, a, less, i));
            }
        } else if i < b.len() {
            assert(splits_at(a, b, less, i));
        } else if i < a.len() {
            assert(splits_at(b, a, less, i));
        } else {
            assert(a =~= b);
        }
    }
}

/// The length of the longest common prefix.
pub open spec fn first_difference<T>(a: Seq<T>, b: Seq<T>) -> int
    decreases a.len(),
{
    if a.len() == 0 || b.len() == 0 || a[0] != b[0] {
        0
    } else {
        1 + first_difference(a.drop_first(), b.drop_first())
    }
}

proof fn lemma_first_difference<T>(a: Seq<T>, b: Seq<T>)
    ensures
        0 <= first_difference(a, b) <= a.len(),
        first_difference(a, b) <= b.len(),
        forall|k: int| 0 <= k < first_difference(a, b) ==> a[k] == b[k],
        first_difference(a, b) < a.len() && first_difference(a, b) < b.len()
            ==> a[first_difference(a, b)] != b[first_difference(a, b)],
    decreases a.len(),
{
    if a.len() == 0 || b.len() == 0 || a[0] != b[0] {
    } else {
        lemma_first_difference(a.drop_first(), b.drop_first());
        let n = first_difference(a.drop_first(), b.drop_first());
        assert forall|k: int| 0 <= k < n + 1 implies a[k] == b[k] by {
            if k > 0 {
                assert(a.drop_first()[k - 1] == b.drop_first()[k - 1]);
            }
        }
    }
}

/// Characters by their code points.
pub open spec fn char_less() -> spec_fn(char, char) -> bool {
    |x: char, y: char| x < y
}

/// Texts in dictionary order of their code points, which is also that of their UTF-8 bytes.
pub open spec fn text_less(a: Seq<char>, b: Seq<char>) -> bool {
    lex_less(a, b, char_less())
}

/// The kind of a path component: the root, the current directory, the parent directory, or a
/// name, in this order.
pub open spec fn component_rank(component: Seq<char>) -> int {
    if component == seq!['/'] {
        0
    } else if component == seq!['.'] {
        1
    } else if component == seq!['.', '.'] {
        2
    } else {
        3
    }
}

/// Whether a component is a name, and neither the root nor a step through the tree.
pub open spec fn is_name(component: Seq<char>) -> bool {
    component != seq!['/'] && component != seq!['.'] && component != seq!['.', '.']
}

/// Components by their kind, and names among themselves as texts.
pub open spec fn component_less() -> spec_fn(Seq<char>, Seq<char>) -> bool {
    |a: Seq<char>, b: Seq<char>|
        component_rank(a) < component_rank(b) || (component_rank(a) == component_rank(b)
            && text_less(a, b))
}

/// Paths in dictionary order of their components.
pub open spec fn path_less(a: Seq<Seq<char>>, b: Seq<Seq<char>>) -> bool {
    lex_less(a, b, component_less())
}

proof fn lemma_component_order()
    ensures
        strict_order(component_less()),
{
    let lex = |a: Seq<char>, b: Seq<char>| lex_less(a, b, char_less());
    lemma_lex_order(char_less());
    let less = component_less();
    assert forall|x: Seq<char>| !(#[trigger] less(x, x)) by {
        assert(!lex(x, x));
    }
    assert forall|x: Seq<char>, y: Seq<char>, z: Seq<char>| #[trigger] less(x, y) && #[trigger] less(
        y,
        z,
    ) implies less(x, z) by {
        if component_rank(x) == component_rank(y) && component_rank(y) == component_rank(z) {
            assert(lex(x, y) && lex(y, z));
            assert(lex(x, z));
        }
    }
    assert forall|x: Seq<char>, y: Seq<char>| x == y || #[trigger] less(x, y) || less(y, x) by {
        assert(x == y || lex(x, y) || lex(y, x));
    }
}

/// The order of paths is strict and total.
pub proof fn lemma_path_order()
    ensures
        forall|a: Seq<Seq<char>>| !(#[trigger] path_less(a, a)),
        forall|a: Seq<Seq<char>>, b: Seq<Seq<char>>, c: Seq<Seq<char>>| #[trigger]
            path_less(a, b) && #[trigger] path_less(b, c) ==> path_less(a, c),
        forall|a: Seq<Seq<char>>, b: Seq<Seq<char>>|
            a == b || #[trigger] path_less(a, b) || path_less(b, a),
{
    lemma_component_order();
    lemma_lex_order(component_less());
    let lex = |a: Seq<Seq<char>>, b: Seq<Seq<char>>| lex_less(a, b, component_less());
    assert(strict_order(lex));
    assert forall|a: Seq<Seq<char>>| !(#[trigger] path_less(a, a)) by {
        assert(!lex(a, a));
    }
    assert forall|a: Seq<Seq<char>>, b: Seq<Seq<char>>, c: Seq<Seq<char>>| #[trigger]
        path_less(a, b) && #[trigger] path_less(b, c) implies path_less(a, c) by {
        assert(lex(a, b) && lex(b, c));
        assert(lex(a, c));
    }
    assert forall|a: Seq<Seq<char>>, b: Seq<Seq<char>>|
        a == b || #[trigger] path_less(a, b) || path_less(b, a) by {
        assert(a == b || lex(a, b) || lex(b, a));
    }
}

/// What `rank` says of two values under a strict order.
pub open spec fn rank_of(less: bool, equal: bool) -> Rank {
    if less {
        Rank::Less
    } else if equal {
        Rank::Equal
    } else {
        Rank::Greater
    }
}

fn rank_texts(a: &str, b: &str) -> (rank: Rank)
    ensures
        rank == rank_of(text_less(a@, b@), a@ == b@),
        rank == Rank::Greater ==> text_less(b@, a@),
{
    let left = chars_of(a);
    let right = chars_of(b);
    let mut i: usize = 0;
    proof {
        lemma_lex_order(char_less());
    }
    let ghost lex = |x: Seq<char>, y: Seq<char>| lex_less(x, y, char_less());
    while i < left.len() && i < right.len() && left[i] == right[i]
        invariant
            left@ == a@,
            right@ == b@,
            i <= left.len(),
            i <= right.len(),
            forall|k: int| 0 <= k < i ==> left@[k] == right@[k],
        decreases left.len() - i,
    {
        i += 1;
    }
    assert(strict_order(lex));
    if i < left.len() && i < right.len() {
        if left[i] < right[i] {
            assert(splits_at(a@, b@, char_less(), i as int));
            Rank::Less
        } else {
            assert(splits_at(b@, a@, char_less(), i as int));
            assert(lex(b@, a@));
            assert(!(lex(a@, b@) && lex(b@, a@))) by {
                assert(!lex(a@, a@));
            }
            Rank::Greater
        }
    } else if i < right.len() {
        assert(splits_at(a@, b@, char_less(), i as int));
        Rank::Less
    } else if i < left.len() {
        assert(splits_at(b@, a@, char_less(), i as int));
        assert(lex(b@, a@));
        assert(!(lex(a@, b@) && lex(b@, a@))) by {
            assert(!lex(a@, a@));
        }
        Rank::Greater
    } else {
        assert(a@ =~= b@);
        assert(!lex(a@, a@));
        Rank::Equal
    }
}

fn rank_of_component(component: &str) -> (rank: u8)
    ensures
        rank == component_rank(component@),
{
    let chars = chars_of(component);
    if chars.len() == 1 && chars[0] == '/' {
        assert(component@ =~= seq!['/']);
        0
    } else if chars.len() == 1 && chars[0] == '.' {
        assert(component@ =~= seq!['.']);
        1
    } else if chars.len() == 2 && chars[0] == '.' && chars[1] == '.' {
        assert(component@ =~= seq!['.', '.']);
        2
    } else {
        3
    }
}

fn rank_components(a: &str, b: &str) -> (rank: Rank)
    ensures
        rank == rank_of(component_less()(a@, b@), a@ == b@),
        rank == Rank::Greater ==> component_less()(b@, a@),
{
    let left = rank_of_component(a);
    let right = rank_of_component(b);
    if left < right {
        Rank::Less
    } else if right < left {
        Rank::Greater
    } else {
        rank_texts(a, b)
    }
}

/// Compares two paths, given as their components.
pub fn rank_paths(a: &Vec<String>, b: &Vec<String>) -> (rank: Rank)
    ensures
        rank == rank_of(
            path_less(texts(a@), texts(b@)),
            texts(a@) == texts(b@),
        ),
        rank == Rank::Greater ==> path_less(texts(b@), texts(a@)),
{
    let ghost left = texts(a@);
    let ghost right = texts(b@);
    proof {
        lemma_path_order();
    }
    let mut i: usize = 0;
    while i < a.len() && i < b.len()
        invariant
            left == texts(a@),
            right == texts(b@),
            i <= a.len(),
            i <= b.len(),
            forall|k: int| 0 <= k < i ==> left[k] == right[k],
            forall|x: Seq<Seq<char>>| !(#[trigger] path_less(x, x)),
            forall|x: Seq<Seq<char>>, y: Seq<Seq<char>>, z: Seq<Seq<char>>| #[trigger]
                path_less(x, y) && #[trigger] path_less(y, z) ==> path_less(x, z),
        decreases a.len() - i,
    {
        assert(left[i as int] == a@[i as int]@ && right[i as int] == b@[i as int]@);
        match rank_components(a[i].as_str(), b[i].as_str()) {
            Rank::Less => {
                assert(splits_at(left, right, component_less(), i as int));
                return Rank::Less;
            },
            Rank::Greater => {
                assert(splits_at(right, left, component_less(), i as int));
                assert(path_less(right, left));
                assert(!path_less(left, right)) by {
                    if path_less(left, right) {
                        assert(path_less(left, left));
                    }
                }
                assert(left != right);
                return Rank::Greater;
            },
            Rank::Equal => {},
        }
        i += 1;
    }
    if i < b.len() {
        assert(splits_at(left, right, component_less(), i as int));
        Rank::Less
    } else if i < a.len() {
        assert(splits_at(right, left, component_less(), i as int));
        assert(path_less(right, left));
        assert(!path_less(left, right)) by {
            if path_less(left, right) {
                assert(path_less(left, left));
            }
        }
        Rank::Greater
    } else {
        assert(left =~= right);
        Rank::Equal
    }
}

/// A directory comes before all that is in it. Below one directory the names decide: the one with the
/// lesser character at the first difference comes first, with all that is below it, and a name comes
/// before those that go on from it.
pub proof fn lemma_directories_come_first(
    dir: Seq<Seq<char>>,
    rest: Seq<Seq<char>>,
    start: Seq<char>,
    x: char,
    y: char,
    x_end: Seq<char>,
    y_end: Seq<char>,
    x_rest: Seq<Seq<char>>,
    y_rest: Seq<Seq<char>>,
)
    ensures
        rest.len() > 0 ==> path_less(dir, dir + rest),
        ({
            let lesser = start.push(x) + x_end;
            let greater = start.push(y) + y_end;
            x < y && is_name(lesser) && is_name(greater) ==> path_less(
                dir.push(lesser) + x_rest,
                dir.push(greater) + y_rest,
            )
        }),
        ({
            let longer = start.push(x) + x_end;
            is_name(start) && is_name(longer) ==> path_less(
                dir.push(start) + x_rest,
                dir.push(longer) + y_rest,
            )
        }),
{
    if rest.len() > 0 {
        assert(splits_at(dir, dir + rest, component_less(), dir.len() as int));
    }
    let n = dir.len() as int;
    let lesser = start.push(x) + x_end;
    let greater = start.push(y) + y_end;
    if x < y && is_name(lesser) && is_name(greater) {
        assert(splits_at(lesser, greater, char_less(), start.len() as int));
        assert(splits_at(
            dir.push(lesser) + x_rest,
            dir.push(greater) + y_rest,
            component_less(),
            n,
        ));
    }
    if is_name(start) && is_name(lesser) {
        assert(splits_at(start, lesser, char_less(), start.len() as int));
        assert(splits_at(
            dir.push(start) + x_rest,
            dir.push(lesser) + y_rest,
            component_less(),
            n,
        ));
    }
}

} // verus!
