//! The datacenters that a cluster spans.

use vstd::prelude::*;

use crate::text::views;

verus! {

/// Whether `a` comes before `b` in the order of the characters, which is also the
/// order of the UTF-8 bytes.
pub open spec fn precedes(a: Seq<char>, b: Seq<char>) -> bool
    decreases a.len(),
{
    b.len() > 0 && (a.len() == 0 || a[0] < b[0] || (a[0] == b[0] && precedes(
        a.drop_first(),
        b.drop_first(),
    )))
}

/// Whether `names` is sorted and holds nothing twice.
pub open spec fn is_ascending(names: Seq<Seq<char>>) -> bool {
    forall|i: int, j: int|
        #![trigger names[i], names[j]]
        0 <= i < j < names.len() ==> precedes(names[i], names[j])
}

/// Whether one of the nodes, given by their datacenters, is in the datacenter `name`.
pub open spec fn is_datacenter_of(nodes: Seq<Option<String>>, name: Seq<char>) -> bool {
    exists|i: int| 0 <= i < nodes.len() && (#[trigger] nodes[i]) is Some && nodes[i]->0@ == name
}

/// Whether `names` lists the datacenters of the nodes, sorted, each once.
pub open spec fn lists_datacenters(nodes: Seq<Option<String>>, names: Seq<Seq<char>>) -> bool {
    &&& is_ascending(names)
    &&& forall|name: Seq<char>| #[trigger]
        names.contains(name) <==> is_datacenter_of(nodes, name)
}

/// No text comes before itself.
pub proof fn lemma_irreflexive(a: Seq<char>)
    ensures
        !precedes(a, a),
    decreases a.len(),
{
    if a.len() > 0 {
        lemma_irreflexive(a.drop_first());
    }
}

proof fn lemma_transitive(a: Seq<char>, b: Seq<char>, c: Seq<char>)
    requires
        precedes(a, b),
        precedes(b, c),
    ensures
        precedes(a, c),
    decreases a.len(),
{
    if a.len() > 0 && a[0] == b[0] && b[0] == c[0] {
        lemma_transitive(a.drop_first(), b.drop_first(), c.drop_first());
    }
}

proof fn lemma_total(a: Seq<char>, b: Seq<char>)
    ensures
        a == b || precedes(a, b) || precedes(b, a),
    decreases a.len(),
{
    if a.len() == 0 {
        if b.len() == 0 {
            assert(a =~= b);
        }
    } else if b.len() > 0 && a[0] == b[0] {
        lemma_total(a.drop_first(), b.drop_first());
        if a.drop_first() == b.drop_first() {
            assert(a =~= seq![a[0]] + a.drop_first());
            assert(b =~= seq![b[0]] + b.drop_first());
        }
    }
}

/// There is only one such list: which datacenters the nodes are in determines it.
pub proof fn law_datacenters_have_one_list(
    nodes: Seq<Option<String>>,
    names: Seq<Seq<char>>,
    others: Seq<Seq<char>>,
)
    requires
        lists_datacenters(nodes, names),
        lists_datacenters(nodes, others),
    ensures
        names == others,
{
    assert forall|name: Seq<char>| names.contains(name) == others.contains(name) by {}
    lemma_ascending_unique(names, others);
}

proof fn lemma_ascending_unique(names: Seq<Seq<char>>, others: Seq<Seq<char>>)
    requires
        is_ascending(names),
        is_ascending(others),
        forall|name: Seq<char>| #[trigger] names.contains(name) == others.contains(name),
    ensures
        names == others,
    decreases names.len(),
{
    if names.len() == 0 {
        if others.len() > 0 {
            assert(others.contains(others[0]));
            assert(names.contains(others[0]));
        }
        assert(names =~= others);
    } else {
        assert(names.contains(names[0]));
        assert(others.contains(names[0]));
        assert(others.contains(others[0]));
        assert(names.contains(others[0]));
        let i = choose|i: int| 0 <= i < names.len() && names[i] == others[0];
        let j = choose|j: int| 0 <= j < others.len() && others[j] == names[0];
        if i > 0 && j > 0 {
            assert(precedes(names[0], names[i]));
            assert(precedes(others[0], others[j]));
            lemma_transitive(names[0], others[0], names[0]);
            lemma_irreflexive(names[0]);
        }
        assert(names[0] == others[0]);
        let rest = names.drop_first();
        let other_rest = others.drop_first();
        assert(is_ascending(rest)) by {
            assert forall|k: int, l: int|
                #![trigger rest[k], rest[l]]
                0 <= k < l < rest.len() implies precedes(rest[k], rest[l]) by {
                assert(precedes(names[k + 1], names[l + 1]));
            }
        }
        assert(is_ascending(other_rest)) by {
            assert forall|k: int, l: int|
                #![trigger other_rest[k], other_rest[l]]
                0 <= k < l < other_rest.len() implies precedes(other_rest[k], other_rest[l]) by {
                assert(precedes(others[k + 1], others[l + 1]));
            }
        }
        assert forall|name: Seq<char>| #[trigger]
            rest.contains(name) == other_rest.contains(name) by {
            lemma_rest_contains(names, name);
            lemma_rest_contains(others, name);
        }
        lemma_ascending_unique(rest, other_rest);
        assert(names =~= seq![names[0]] + rest);
        assert(others =~= seq![others[0]] + other_rest);
    }
}

proof fn lemma_rest_contains(names: Seq<Seq<char>>, name: Seq<char>)
    requires
        is_ascending(names),
        names.len() > 0,
    ensures
        names.drop_first().contains(name) == (names.contains(name) && name != names[0]),
{
    let rest = names.drop_first();
    if rest.contains(name) {
        let i = choose|i: int| 0 <= i < rest.len() && rest[i] == name;
        assert(names[i + 1] == name);
        assert(precedes(names[0], names[i + 1]));
        lemma_irreflexive(name);
    }
    if names.contains(name) && name != names[0] {
        let i = choose|i: int| 0 <= i < names.len() && names[i] == name;
        assert(rest[i - 1] == name);
    }
}

fn characters(text: &str) -> (list: Vec<char>)
    ensures
        list@ == text@,
{
    let mut list: Vec<char> = Vec::new();
    let count = text.unicode_len();
    let mut i: usize = 0;
    while i < count
        invariant
            count == text@.len(),
            i <= count,
            list@ == text@.take(i as int),
        decreases count - i,
    {
        list.push(text.get_char(i));
        assert(text@.take(i + 1) =~= text@.take(i as int).push(text@[i as int]));
        i = i + 1;
    }
    assert(text@.take(count as int) =~= text@);
    list
}

fn comes_before(a: &str, b: &str) -> (before: bool)
    ensures
        before == precedes(a@, b@),
{
    let left = characters(a);
    let right = characters(b);
    let mut i: usize = 0;
    assert(a@.skip(0) =~= a@);
    assert(b@.skip(0) =~= b@);
    while i < left.len() && i < right.len() && left[i] == right[i]
        invariant
            left@ == a@,
            right@ == b@,
            i <= left@.len(),
            i <= right@.len(),
            precedes(a@, b@) == precedes(a@.skip(i as int), b@.skip(i as int)),
        decreases left@.len() - i,
    {
        assert(a@.skip(i as int).drop_first() =~= a@.skip(i + 1));
        assert(b@.skip(i as int).drop_first() =~= b@.skip(i + 1));
        i = i + 1;
    }
    i < right.len() && (i == left.len() || left[i] < right[i])
}

/// Adds `name` to a sorted list, unless it is there.
fn add_name(names: &mut Vec<String>, name: &String)
    requires
        is_ascending(views(old(names)@)),
    ensures
        is_ascending(views(final(names)@)),
        forall|other: Seq<char>| #[trigger]
            views(final(names)@).contains(other) <==> views(old(names)@).contains(other) || other
                == name@,
{
    let ghost list = views(names@);
    let mut i: usize = 0;
    while i < names.len() && comes_before(names[i].as_str(), name.as_str())
        invariant
            list == views(names@),
            names@ == old(names)@,
            i <= names@.len(),
            forall|j: int| 0 <= j < i ==> precedes(#[trigger] list[j], name@),
        decreases names@.len() - i,
    {
        assert(list[i as int] == names@[i as int]@);
        i = i + 1;
    }
    if i < names.len() && names[i] == *name {
        assert(list[i as int] == name@);
        return ;
    }
    proof {
        assert forall|j: int| i <= j < list.len() implies precedes(name@, #[trigger] list[j]) by {
            assert(list[i as int] == names@[i as int]@);
            lemma_total(list[i as int], name@);
            if j > i {
                assert(precedes(list[i as int], list[j]));
                lemma_transitive(name@, list[i as int], list[j]);
            }
        }
    }
    names.insert(i, name.clone());
    proof {
        let new = views(names@);
        assert(new =~= list.insert(i as int, name@));
        assert forall|j: int, k: int|
            #![trigger new[j], new[k]]
            0 <= j < k < new.len() implies precedes(new[j], new[k]) by {
            let left = if j < i {
                j
            } else {
                j - 1
            };
            let right = if k < i {
                k
            } else {
                k - 1
            };
            if j != i && k != i {
                assert(new[j] == list[left]);
                assert(new[k] == list[right]);
                assert(precedes(list[left], list[right]));
            } else if j == i {
                assert(precedes(name@, list[right]));
            } else {
                assert(precedes(list[left], name@));
            }
        }
        assert forall|other: Seq<char>| #[trigger]
            new.contains(other) <==> list.contains(other) || other == name@ by {
            if list.contains(other) {
                let j = choose|j: int| 0 <= j < list.len() && list[j] == other;
                assert(new[if j < i {
                    j
                } else {
                    j + 1
                }] == other);
            }
            if other == name@ {
                assert(new[i as int] == other);
            }
            if new.contains(other) && other != name@ {
                let j = choose|j: int| 0 <= j < new.len() && new[j] == other;
                assert(list[if j < i {
                    j
                } else {
                    j - 1
                }] == other);
            }
        }
    }
}

/// Lists the datacenters of the nodes, sorted, each once.
pub fn distinct_datacenters(nodes: &Vec<Option<String>>) -> (names: Vec<String>)
    ensures
        lists_datacenters(nodes@, views(names@)),
{
    let mut names: Vec<String> = Vec::new();
    let mut i: usize = 0;
    assert forall|name: Seq<char>| !views(names@).contains(name) by {}
    while i < nodes.len()
        invariant
            i <= nodes@.len(),
            is_ascending(views(names@)),
            forall|name: Seq<char>| #[trigger]
                views(names@).contains(name) <==> is_datacenter_of(nodes@.take(i as int), name),
        decreases nodes@.len() - i,
    {
        let ghost done = nodes@.take(i as int);
        let ghost more = nodes@.take(i + 1);
        let ghost had = views(names@);
        if let Some(name) = &nodes[i] {
            add_name(&mut names, name);
        }
        proof {
            assert forall|name: Seq<char>| #[trigger]
                views(names@).contains(name) <==> is_datacenter_of(more, name) by {
                if is_datacenter_of(more, name) {
                    let j = choose|j: int|
                        0 <= j < more.len() && (#[trigger] more[j]) is Some && more[j]->0@ == name;
                    if j < i {
                        assert(done[j] == more[j]);
                        assert(is_datacenter_of(done, name));
                    }
                }
                if is_datacenter_of(done, name) {
                    let j = choose|j: int|
                        0 <= j < done.len() && (#[trigger] done[j]) is Some && done[j]->0@ == name;
                    assert(done[j] == more[j]);
                    assert(is_datacenter_of(more, name));
                }
                if nodes@[i as int] is Some && nodes@[i as int]->0@ == name {
                    assert(more[i as int] == nodes@[i as int]);
                    assert(is_datacenter_of(more, name));
                }
                assert(had.contains(name) <==> is_datacenter_of(done, name));
            }
        }
        i = i + 1;
    }
    assert(nodes@.take(nodes@.len() as int) =~= nodes@);
    names
}

} // verus!
