//! The order of paths: component by component. The root comes first, then `.`, then `..`, then
//! names in the order of their code points.
use vstd::prelude::*;
use vstd::relations::{sorted_by, total_ordering};
use vstd::seq_lib::{lemma_sorted_unique, to_multiset_build, to_multiset_insert};

use crate::path;
use crate::text;

verus! {

/// Whether `a` comes before `b` in the order of the code points.
pub open spec fn text_before(a: Seq<char>, b: Seq<char>) -> bool
    decreases b.len(),
{
    if b.len() == 0 {
        false
    } else if a.len() == 0 {
        true
    } else if a[0] == b[0] {
        text_before(a.skip(1), b.skip(1))
    } else {
        a[0] < b[0]
    }
}

/// The kind of a component, by its place in the order: the root, `.`, `..`, and names.
pub open spec fn part_kind(part: Seq<char>) -> int {
    if part == seq!['/'] {
        0
    } else if part == seq!['.'] {
        1
    } else if part == seq!['.', '.'] {
        2
    } else {
        3
    }
}

/// Whether a component comes before another.
pub open spec fn part_before(a: Seq<char>, b: Seq<char>) -> bool {
    if part_kind(a) == part_kind(b) {
        text_before(a, b)
    } else {
        part_kind(a) < part_kind(b)
    }
}

/// Whether `a` comes before `b`, part by part.
pub open spec fn parts_before(a: Seq<Seq<char>>, b: Seq<Seq<char>>) -> bool
    decreases b.len(),
{
    if b.len() == 0 {
        false
    } else if a.len() == 0 {
        true
    } else if a[0] == b[0] {
        parts_before(a.skip(1), b.skip(1))
    } else {
        part_before(a[0], b[0])
    }
}

/// Whether `a` may stand in front of `b`.
pub open spec fn not_after(a: Seq<Seq<char>>, b: Seq<Seq<char>>) -> bool {
    !parts_before(b, a)
}

/// The components of each path.
pub open spec fn all_components(paths: Seq<Seq<char>>) -> Seq<Seq<Seq<char>>> {
    Seq::new(paths.len(), |i: int| path::components(paths[i]))
}

/// Whether paths stand in their order.
pub open spec fn in_order(paths: Seq<Seq<char>>) -> bool {
    sorted_by(all_components(paths), |a: Seq<Seq<char>>, b: Seq<Seq<char>>| not_after(a, b))
}

proof fn lemma_text_order(a: Seq<char>, b: Seq<char>, c: Seq<char>)
    ensures
        !(text_before(a, b) && text_before(b, a)),
        !text_before(a, a),
        a == b || text_before(a, b) || text_before(b, a),
        text_before(a, b) && text_before(b, c) ==> text_before(a, c),
    decreases a.len() + b.len() + c.len(),
{
    if a.len() > 0 && b.len() > 0 && c.len() > 0 {
        lemma_text_order(a.skip(1), b.skip(1), c.skip(1));
    } else if a.len() > 0 && b.len() > 0 {
        lemma_text_order(a.skip(1), b.skip(1), c);
    } else if a.len() > 0 {
        lemma_text_order(a.skip(1), b, c);
    }
    if a.len() > 0 && b.len() > 0 && a[0] == b[0] && a.skip(1) == b.skip(1) {
        assert(a =~= seq![a[0]] + a.skip(1));
        assert(b =~= seq![b[0]] + b.skip(1));
    }
    if a.len() == 0 && b.len() == 0 {
        assert(a =~= b);
    }
}

proof fn lemma_part_order(a: Seq<char>, b: Seq<char>, c: Seq<char>)
    ensures
        !(part_before(a, b) && part_before(b, a)),
        !part_before(a, a),
        a == b || part_before(a, b) || part_before(b, a),
        part_before(a, b) && part_before(b, c) ==> part_before(a, c),
{
    lemma_text_order(a, b, c);
}

proof fn lemma_parts_order(a: Seq<Seq<char>>, b: Seq<Seq<char>>, c: Seq<Seq<char>>)
    ensures
        !(parts_before(a, b) && parts_before(b, a)),
        !parts_before(a, a),
        a == b || parts_before(a, b) || parts_before(b, a),
        parts_before(a, b) && parts_before(b, c) ==> parts_before(a, c),
    decreases a.len() + b.len() + c.len(),
{
    if a.len() > 0 && b.len() > 0 && c.len() > 0 {
        lemma_parts_order(a.skip(1), b.skip(1), c.skip(1));
        lemma_part_order(a[0], b[0], c[0]);
        lemma_part_order(b[0], c[0], a[0]);
    } else if a.len() > 0 && b.len() > 0 {
        lemma_parts_order(a.skip(1), b.skip(1), c);
        lemma_part_order(a[0], b[0], a[0]);
    } else if a.len() > 0 {
        lemma_parts_order(a.skip(1), b, c);
    }
    if a.len() > 0 && b.len() > 0 && a[0] == b[0] && a.skip(1) == b.skip(1) {
        assert(a =~= seq![a[0]] + a.skip(1));
        assert(b =~= seq![b[0]] + b.skip(1));
    }
    if a.len() == 0 && b.len() == 0 {
        assert(a =~= b);
    }
}

/// Of two paths with different components one comes first, and what comes before the first comes
/// before the other: the order is total.
pub proof fn law_paths_are_ordered()
    ensures
        total_ordering(|a: Seq<Seq<char>>, b: Seq<Seq<char>>| not_after(a, b)),
{
    let leq = |a: Seq<Seq<char>>, b: Seq<Seq<char>>| not_after(a, b);
    assert forall|x: Seq<Seq<char>>, y: Seq<Seq<char>>, z: Seq<Seq<char>>| #[trigger]
        leq(x, y) && #[trigger] leq(y, z) implies leq(x, z) by {
        lemma_parts_order(x, y, z);
        lemma_parts_order(y, z, x);
        lemma_parts_order(z, y, x);
        lemma_parts_order(z, x, y);
    }
    assert forall|x: Seq<Seq<char>>, y: Seq<Seq<char>>| #[trigger] leq(x, y) && #[trigger]
        leq(y, x) implies x == y by {
        lemma_parts_order(x, y, x);
    }
    assert forall|x: Seq<Seq<char>>| #[trigger] leq(x, x) by {
        lemma_parts_order(x, x, x);
    }
    assert forall|x: Seq<Seq<char>>, y: Seq<Seq<char>>| #[trigger] leq(x, y) || #[trigger]
        leq(y, x) by {
        lemma_parts_order(x, y, x);
    }
}

fn text_is_before(a: &Vec<char>, b: &Vec<char>) -> (yes: bool)
    ensures
        yes == text_before(a@, b@),
{
    let mut i: usize = 0;
    assert(a@.skip(0) =~= a@);
    assert(b@.skip(0) =~= b@);
    while i < a.len() && i < b.len() && a[i] == b[i]
        invariant
            i <= a@.len(),
            i <= b@.len(),
            text_before(a@, b@) == text_before(a@.skip(i as int), b@.skip(i as int)),
        decreases a.len() - i,
    {
        assert(a@.skip(i as int).skip(1) =~= a@.skip(i + 1));
        assert(b@.skip(i as int).skip(1) =~= b@.skip(i + 1));
        i += 1;
    }
    if i >= b.len() {
        false
    } else if i >= a.len() {
        true
    } else {
        a[i] < b[i]
    }
}

fn same_part(a: &Vec<char>, b: &Vec<char>) -> (yes: bool)
    ensures
        yes == (a@ == b@),
{
    if a.len() != b.len() {
        return false;
    }
    let mut i: usize = 0;
    while i < a.len()
        invariant
            i <= a@.len(),
            a@.len() == b@.len(),
            forall|j: int| 0 <= j < i ==> a@[j] == b@[j],
        decreases a.len() - i,
    {
        if a[i] != b[i] {
            return false;
        }
        i += 1;
    }
    assert(a@ =~= b@);
    true
}

fn kind_of_part(part: &Vec<char>) -> (kind: u8)
    ensures
        kind == part_kind(part@),
{
    if part.len() == 1 && part[0] == '/' {
        assert(part@ =~= seq!['/']);
        0
    } else if part.len() == 1 && part[0] == '.' {
        assert(part@ =~= seq!['.']);
        1
    } else if part.len() == 2 && part[0] == '.' && part[1] == '.' {
        assert(part@ =~= seq!['.', '.']);
        2
    } else {
        3
    }
}

fn part_is_before(a: &Vec<char>, b: &Vec<char>) -> (yes: bool)
    ensures
        yes == part_before(a@, b@),
{
    let left: u8 = kind_of_part(a);
    let right: u8 = kind_of_part(b);
    if left == right {
        text_is_before(a, b)
    } else {
        left < right
    }
}

fn parts_are_before(a: &Vec<Vec<char>>, b: &Vec<Vec<char>>) -> (yes: bool)
    ensures
        yes == parts_before(text::char_views(a@), text::char_views(b@)),
{
    let ghost left = text::char_views(a@);
    let ghost right = text::char_views(b@);
    let mut i: usize = 0;
    assert(left.skip(0) =~= left);
    assert(right.skip(0) =~= right);
    while i < a.len() && i < b.len() && same_part(&a[i], &b[i])
        invariant
            i <= a@.len(),
            i <= b@.len(),
            left == text::char_views(a@),
            right == text::char_views(b@),
            parts_before(left, right) == parts_before(left.skip(i as int), right.skip(i as int)),
        decreases a.len() - i,
    {
        assert(left.skip(i as int).skip(1) =~= left.skip(i + 1));
        assert(right.skip(i as int).skip(1) =~= right.skip(i + 1));
        i += 1;
    }
    if i >= b.len() {
        false
    } else if i >= a.len() {
        true
    } else {
        part_is_before(&a[i], &b[i])
    }
}

proof fn lemma_insert_in_order(paths: Seq<Seq<char>>, at: int, next: Seq<char>)
    requires
        in_order(paths),
        0 <= at <= paths.len(),
        at > 0 ==> not_after(path::components(paths[at - 1]), path::components(next)),
        forall|k: int|
            at <= k < paths.len() ==> parts_before(
                path::components(next),
                path::components(#[trigger] paths[k]),
            ),
    ensures
        in_order(paths.insert(at, next)),
{
    let leq = |a: Seq<Seq<char>>, b: Seq<Seq<char>>| not_after(a, b);
    let before = all_components(paths);
    let new_paths = paths.insert(at, next);
    let after = all_components(new_paths);
    let key = path::components(next);
    law_paths_are_ordered();
    assert forall|i: int, j: int| 0 <= i < j < after.len() implies #[trigger] leq(
        after[i],
        after[j],
    ) by {
        let old_i = if i < at { i } else { i - 1 };
        let old_j = if j < at { j } else { j - 1 };
        if j == at {
            assert(after[i] == before[i]);
            if i < at - 1 {
                assert(leq(before[i], before[at - 1]));
            }
            assert(leq(before[at - 1], key));
        } else if i == at {
            assert(after[j] == before[j - 1]);
            assert(before[j - 1] == path::components(paths[j - 1]));
            lemma_parts_order(key, before[j - 1], key);
        } else {
            assert(after[i] == before[old_i]);
            assert(after[j] == before[old_j]);
            assert(leq(before[old_i], before[old_j]));
        }
    }
}

/// The paths in their order.
pub fn sort_paths(paths: &Vec<String>) -> (sorted: Vec<String>)
    ensures
        in_order(text::text_views(sorted@)),
        text::text_views(sorted@).to_multiset() == text::text_views(paths@).to_multiset(),
{
    let ghost all = text::text_views(paths@);
    let mut sorted: Vec<String> = Vec::new();
    let mut keys: Vec<Vec<Vec<char>>> = Vec::new();
    let mut i: usize = 0;
    assert(text::text_views(sorted@) =~= Seq::<Seq<char>>::empty());
    assert(all.take(0) =~= Seq::<Seq<char>>::empty());
    while i < paths.len()
        invariant
            i <= paths@.len(),
            all == text::text_views(paths@),
            keys@.len() == sorted@.len(),
            forall|k: int|
                0 <= k < keys@.len() ==> text::char_views((#[trigger] keys@[k])@)
                    == path::components(sorted@[k]@),
            in_order(text::text_views(sorted@)),
            text::text_views(sorted@).to_multiset() == all.take(i as int).to_multiset(),
        decreases paths.len() - i,
    {
        let next = paths[i].clone();
        let key = path::path_components(next.as_str());
        let ghost views = text::text_views(sorted@);
        let mut at: usize = sorted.len();
        while at > 0 && parts_are_before(&key, &keys[at - 1])
            invariant
                at <= sorted@.len(),
                keys@.len() == sorted@.len(),
                views == text::text_views(sorted@),
                text::char_views(key@) == path::components(next@),
                forall|k: int|
                    0 <= k < keys@.len() ==> text::char_views((#[trigger] keys@[k])@)
                        == path::components(sorted@[k]@),
                forall|k: int|
                    at <= k < views.len() ==> parts_before(
                        path::components(next@),
                        path::components(#[trigger] views[k]),
                    ),
            decreases at,
        {
            assert(text::char_views(keys@[at - 1]@) == path::components(views[at - 1]));
            at -= 1;
        }
        proof {
            if at > 0 {
                assert(text::char_views(keys@[at - 1]@) == path::components(views[at - 1]));
            }
            lemma_insert_in_order(views, at as int, next@);
            to_multiset_insert(views, at as int, next@);
            to_multiset_build(all.take(i as int), next@);
            assert(all.take(i + 1) =~= all.take(i as int).push(next@));
        }
        let ghost old_keys = keys@;
        let ghost old_sorted = sorted@;
        keys.insert(at, key);
        sorted.insert(at, next);
        proof {
            assert(text::text_views(sorted@) =~= views.insert(at as int, next@));
            assert forall|k: int| 0 <= k < keys@.len() implies text::char_views(
                (#[trigger] keys@[k])@,
            ) == path::components(sorted@[k]@) by {
                if k < at {
                    assert(keys@[k] == old_keys[k]);
                    assert(sorted@[k] == old_sorted[k]);
                } else if k > at {
                    assert(keys@[k] == old_keys[k - 1]);
                    assert(sorted@[k] == old_sorted[k - 1]);
                }
            }
        }
        i += 1;
    }
    assert(all.take(i as int) =~= all);
    sorted
}

/// There is one order of paths: two lists of the same components that both stand in order hold
/// them in the same places, whatever order they were found in.
pub proof fn law_one_order(a: Seq<Seq<char>>, b: Seq<Seq<char>>)
    requires
        in_order(a),
        in_order(b),
        all_components(a).to_multiset() == all_components(b).to_multiset(),
    ensures
        all_components(a) == all_components(b),
{
    law_paths_are_ordered();
    lemma_sorted_unique(
        all_components(a),
        all_components(b),
        |x: Seq<Seq<char>>, y: Seq<Seq<char>>| not_after(x, y),
    );
}

/// Texts are ordered by the first character in which they differ, and a text comes before its own
/// continuations.
pub proof fn law_texts_are_ordered_by_characters(
    front: Seq<char>,
    x: char,
    y: char,
    s: Seq<char>,
    t: Seq<char>,
)
    ensures
        x != y ==> (text_before(front + seq![x] + s, front + seq![y] + t) <==> x < y),
        text_before(front, front + seq![x] + s),
        !text_before(front + seq![x] + s, front),
    decreases front.len(),
{
    let a = front + seq![x] + s;
    let b = front + seq![y] + t;
    if front.len() == 0 {
        assert(a[0] == x);
        assert(b[0] == y);
    } else {
        let rest = front.skip(1);
        law_texts_are_ordered_by_characters(rest, x, y, s, t);
        assert(a.skip(1) == rest + seq![x] + s);
        assert(b.skip(1) == rest + seq![y] + t);
        assert(a[0] == front[0]);
        assert(b[0] == front[0]);
    }
}

/// Paths are ordered by the first component in which they differ: names by their characters, and
/// the root, `.` and `..` before all names. A directory comes before what lies in it.
pub proof fn law_paths_are_ordered_by_components(
    front: Seq<Seq<char>>,
    x: Seq<char>,
    y: Seq<char>,
    s: Seq<Seq<char>>,
    t: Seq<Seq<char>>,
)
    ensures
        x != y ==> (parts_before(front + seq![x] + s, front + seq![y] + t) <==> part_before(x, y)),
        parts_before(front, front + seq![x] + s),
        !parts_before(front + seq![x] + s, front),
        ({
            let special = |part: Seq<char>|
                part == seq!['/'] || part == seq!['.'] || part == seq!['.', '.'];
            &&& !special(x) && !special(y) ==> (part_before(x, y) <==> text_before(x, y))
            &&& special(x) && !special(y) ==> part_before(x, y) && !part_before(y, x)
        }),
    decreases front.len(),
{
    let a = front + seq![x] + s;
    let b = front + seq![y] + t;
    if front.len() == 0 {
        assert(a[0] == x);
        assert(b[0] == y);
    } else {
        let rest = front.skip(1);
        law_paths_are_ordered_by_components(rest, x, y, s, t);
        assert(a.skip(1) == rest + seq![x] + s);
        assert(b.skip(1) == rest + seq![y] + t);
        assert(a[0] == front[0]);
        assert(b[0] == front[0]);
    }
}

/// In a sorted list no path comes before one that stands in front of it.
pub proof fn law_sorted_paths_stand_in_order(paths: Seq<Seq<char>>, i: int, j: int)
    requires
        in_order(paths),
        0 <= i < j < paths.len(),
    ensures
        !parts_before(path::components(paths[j]), path::components(paths[i])),
{
    let all = all_components(paths);
    let leq = |a: Seq<Seq<char>>, b: Seq<Seq<char>>| not_after(a, b);
    assert(leq(all[i], all[j]));
}

} // verus!
