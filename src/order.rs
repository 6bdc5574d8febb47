use vstd::prelude::*;
use vstd::string::StringExecFns;
use crate::tools::string_views;

verus! {

/// What `str::trim` leaves of `s`.
pub uninterp spec fn trimmed_of(s: Seq<char>) -> Seq<char>;

/// Relies on `str::trim`: `s` without its leading and trailing whitespace,
/// which depends on `s` alone.
#[verifier::external_body]
fn trim_str(s: &str) -> (r: &str)
    ensures
        r@ == trimmed_of(s@),
{
    s.trim()
}

/// Relies on `str::starts_with` with a `char` pattern: whether `s` begins
/// with `c`.
#[verifier::external_body]
fn starts_with_char(s: &str, c: char) -> (r: bool)
    ensures
        r == (s@.len() > 0 && s@[0] == c),
{
    s.starts_with(c)
}

/// Whether a trimmed line names an object: it is neither blank nor a comment.
pub open spec fn is_entry(t: Seq<char>) -> bool {
    t.len() > 0 && t[0] != '#'
}

/// Whether an already trimmed order-file line names an object: it is
/// neither blank nor a `#` comment.
pub fn is_order_entry(trimmed: &str) -> (r: bool)
    ensures
        r == is_entry(trimmed@),
{
    !trimmed.is_empty() && !starts_with_char(trimmed, '#')
}

/// The entries of an order file given as its lines: each line trimmed, then
/// blank and `#` comment lines dropped.
pub open spec fn order_entries_spec(lines: Seq<Seq<char>>) -> Seq<Seq<char>>
    decreases lines.len(),
{
    if lines.len() == 0 {
        Seq::empty()
    } else {
        let rest = order_entries_spec(lines.drop_last());
        let t = trimmed_of(lines.last());
        if is_entry(t) {
            rest.push(t)
        } else {
            rest
        }
    }
}

/// Reads the object names out of the lines of an order file.
pub fn order_entries(lines: &Vec<String>) -> (r: Vec<String>)
    ensures
        string_views(r@) == order_entries_spec(string_views(lines@)),
{
    let mut r: Vec<String> = Vec::new();
    let mut i: usize = 0;
    while i < lines.len()
        invariant
            0 <= i <= lines@.len(),
            string_views(r@) == order_entries_spec(string_views(lines@).take(i as int)),
        decreases lines@.len() - i,
    {
        let t = trim_str(lines[i].as_str());
        assert(string_views(lines@).take(i + 1).drop_last() =~= string_views(lines@).take(i as int));
        let ghost prev = r@;
        if is_order_entry(t) {
            r.push(String::from_str(t));
            assert(string_views(r@) =~= string_views(prev).push(t@));
        }
        i = i + 1;
    }
    assert(string_views(lines@).take(i as int) =~= string_views(lines@));
    r
}

/// The listed part of the final order: each entry of `order` that names a
/// member, at its first occurrence in `order`.
pub open spec fn listed_names(names: Seq<Seq<char>>, order: Seq<Seq<char>>) -> Seq<Seq<char>>
    decreases order.len(),
{
    if order.len() == 0 {
        Seq::empty()
    } else {
        let rest = listed_names(names, order.drop_last());
        let x = order.last();
        if names.contains(x) && !order.drop_last().contains(x) {
            rest.push(x)
        } else {
            rest
        }
    }
}

/// The members that `order` does not mention, in the order they were gathered.
pub open spec fn unlisted_names(names: Seq<Seq<char>>, order: Seq<Seq<char>>) -> Seq<Seq<char>> {
    names.filter(|n: Seq<char>| !order.contains(n))
}

/// The final sequence of member names: the listed ones in the order file's
/// sequence, then the rest in the order they were gathered.
pub open spec fn ordered_names(names: Seq<Seq<char>>, order: Seq<Seq<char>>) -> Seq<Seq<char>> {
    listed_names(names, order) + unlisted_names(names, order)
}

/// Whether no two members share a name.
pub open spec fn distinct_names(names: Seq<Seq<char>>) -> bool {
    forall|i: int, j: int| 0 <= i < j < names.len() ==> names[i] != names[j]
}

/// The names at the given positions.
pub open spec fn names_at(names: Seq<Seq<char>>, idx: Seq<usize>) -> Seq<Seq<char>> {
    idx.map_values(|k: usize| names[k as int])
}

/// The first position of `x` in `v`, if any.
fn position_of(v: &Vec<String>, end: usize, x: &String) -> (r: Option<usize>)
    requires
        end <= v@.len(),
    ensures
        r is None ==> !string_views(v@).take(end as int).contains(x@),
        r matches Some(k) ==> k < end && v@[k as int]@ == x@,
{
    let mut i: usize = 0;
    while i < end
        invariant
            0 <= i <= end <= v@.len(),
            forall|j: int| 0 <= j < i ==> v@[j]@ != x@,
        decreases end - i,
    {
        if v[i] == *x {
            return Some(i);
        }
        i = i + 1;
    }
    assert forall|j: int| 0 <= j < end implies string_views(v@).take(end as int)[j] != x@ by {
        assert(string_views(v@).take(end as int)[j] == v@[j]@);
    }
    None
}

/// The positions of the members in packing order: members named by `order`
/// come first, in the order file's sequence; all others follow in the
/// order they were gathered in. Entries that name no member are ignored.
pub fn merge_order(names: &Vec<String>, order: &Vec<String>) -> (r: Vec<usize>)
    requires
        distinct_names(string_views(names@)),
    ensures
        forall|k: int| 0 <= k < r@.len() ==> r@[k] < names@.len(),
        names_at(string_views(names@), r@) == ordered_names(string_views(names@), string_views(order@)),
{
    let ghost nv = string_views(names@);
    let ghost ov = string_views(order@);
    let mut r: Vec<usize> = Vec::new();
    let mut i: usize = 0;
    while i < order.len()
        invariant
            0 <= i <= order@.len(),
            nv == string_views(names@),
            ov == string_views(order@),
            forall|k: int| 0 <= k < r@.len() ==> r@[k] < names@.len(),
            names_at(nv, r@) == listed_names(nv, ov.take(i as int)),
        decreases order@.len() - i,
    {
        assert(ov.take(i + 1).drop_last() =~= ov.take(i as int));
        assert(ov.take(i + 1).last() == order@[i as int]@);
        let ghost prev = r@;
        let earlier = position_of(order, i, &order[i]);
        if earlier.is_none() {
            match position_of(names, names.len(), &order[i]) {
                Some(k) => {
                    r.push(k);
                    assert(nv.contains(order@[i as int]@)) by {
                        assert(nv[k as int] == order@[i as int]@);
                    }
                    assert(names_at(nv, r@) =~= names_at(nv, prev).push(nv[k as int]));
                },
                None => {
                    assert(nv.take(names@.len() as int) =~= nv);
                },
            }
        } else {
            let k = earlier.unwrap();
            assert(ov.take(i as int).contains(order@[i as int]@)) by {
                assert(ov.take(i as int)[k as int] == order@[i as int]@);
            }
        }
        i = i + 1;
    }
    assert(ov.take(i as int) =~= ov);
    let ghost listed = r@;
    let mut j: usize = 0;
    while j < names.len()
        invariant
            0 <= j <= names@.len(),
            nv == string_views(names@),
            ov == string_views(order@),
            forall|k: int| 0 <= k < r@.len() ==> r@[k] < names@.len(),
            r@.len() >= listed.len(),
            r@.take(listed.len() as int) == listed,
            names_at(nv, listed) == listed_names(nv, ov),
            names_at(nv, r@.skip(listed.len() as int)) == unlisted_names(nv.take(j as int), ov),
        decreases names@.len() - j,
    {
        let ghost prev = r@;
        assert(nv.take(j + 1) =~= nv.take(j as int).push(nv[j as int]));
        proof {
            reveal(Seq::filter);
            assert(nv.take(j + 1).drop_last() =~= nv.take(j as int));
        }
        let listed_here = position_of(order, order.len(), &names[j]);
        assert(ov.take(order@.len() as int) =~= ov);
        if listed_here.is_none() {
            r.push(j);
            assert(r@.take(listed.len() as int) =~= prev.take(listed.len() as int));
            assert(r@.skip(listed.len() as int) =~= prev.skip(listed.len() as int).push(j));
            assert(names_at(nv, r@.skip(listed.len() as int)) =~= names_at(nv, prev.skip(listed.len() as int)).push(nv[j as int]));
        } else {
            let k = listed_here.unwrap();
            assert(ov[k as int] == nv[j as int]);
        }
        j = j + 1;
    }
    assert(nv.take(j as int) =~= nv);
    assert(r@ =~= listed + r@.skip(listed.len() as int));
    assert(names_at(nv, r@) =~= names_at(nv, listed) + names_at(nv, r@.skip(listed.len() as int)));
    r
}

} // verus!
