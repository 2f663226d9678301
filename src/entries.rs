use vstd::prelude::*;

use crate::text::same_text;

verus! {

/// The index of the first entry for `id`, or the length where there is none.
pub open spec fn entry_index<V>(s: Seq<(String, V)>, id: Seq<char>) -> int
    decreases s.len(),
{
    if s.len() == 0 {
        0
    } else if s[0].0@ == id {
        0
    } else {
        1 + entry_index(s.drop_first(), id)
    }
}

pub proof fn lemma_entry_index<V>(s: Seq<(String, V)>, id: Seq<char>)
    ensures
        0 <= entry_index(s, id) <= s.len(),
        entry_index(s, id) < s.len() ==> s[entry_index(s, id)].0@ == id,
        forall|j: int| 0 <= j < entry_index(s, id) ==> s[j].0@ != id,
    decreases s.len(),
{
    if s.len() > 0 && s[0].0@ != id {
        lemma_entry_index(s.drop_first(), id);
        assert forall|j: int| 0 <= j < entry_index(s, id) implies s[j].0@ != id by {
            if j > 0 {
                assert(s[j] == s.drop_first()[j - 1]);
            }
        }
    }
}

pub proof fn lemma_entry_index_same_names<V>(s: Seq<(String, V)>, t: Seq<(String, V)>, id: Seq<char>)
    requires
        s.len() == t.len(),
        forall|j: int| 0 <= j < s.len() ==> (#[trigger] s[j]).0@ == t[j].0@,
    ensures
        entry_index(s, id) == entry_index(t, id),
    decreases s.len(),
{
    if s.len() > 0 {
        assert(s[0].0@ == t[0].0@);
        lemma_entry_index_same_names(s.drop_first(), t.drop_first(), id);
    }
}

pub proof fn lemma_entry_index_push<V>(s: Seq<(String, V)>, e: (String, V), id: Seq<char>)
    ensures
        entry_index(s.push(e), id) == if entry_index(s, id) < s.len() {
            entry_index(s, id)
        } else if e.0@ == id {
            s.len() as int
        } else {
            s.len() as int + 1
        },
    decreases s.len(),
{
    if s.len() > 0 {
        assert(s.push(e).drop_first() == s.drop_first().push(e));
        assert(s.push(e)[0] == s[0]);
        lemma_entry_index_push(s.drop_first(), e, id);
    } else {
        assert(s.push(e).drop_first() == Seq::<(String, V)>::empty());
        assert(s.push(e)[0] == e);
        assert(entry_index(Seq::<(String, V)>::empty(), id) == 0);
    }
}

pub proof fn lemma_entry_index_at<V>(s: Seq<(String, V)>, id: Seq<char>, i: int)
    requires
        0 <= i <= s.len(),
        i < s.len() ==> s[i].0@ == id,
        forall|j: int| 0 <= j < i ==> s[j].0@ != id,
    ensures
        entry_index(s, id) == i,
{
    lemma_entry_index(s, id);
    let d = entry_index(s, id);
    if d < i {
        assert(s[d].0@ == id);
    }
}

/// The index of the first entry of `s` named `id`, or the length of `s` where
/// there is none.
pub fn find_entry<V>(s: &Vec<(String, V)>, id: &str) -> (r: usize)
    ensures
        r == entry_index(s@, id@),
{
    let mut i: usize = 0;
    while i < s.len()
        invariant
            i <= s@.len(),
            forall|j: int| 0 <= j < i ==> s@[j].0@ != id@,
        decreases s@.len() - i,
    {
        if same_text(s[i].0.as_str(), id) {
            proof {
                lemma_entry_index_at(s@, id@, i as int);
            }
            return i;
        }
        i = i + 1;
    }
    proof {
        lemma_entry_index_at(s@, id@, i as int);
    }
    i
}

/// The entries of `s` that are not named `id`, in order.
pub open spec fn without<V>(s: Seq<(String, V)>, id: Seq<char>) -> Seq<(String, V)>
    decreases s.len(),
{
    if s.len() == 0 {
        s
    } else if s.last().0@ == id {
        without(s.drop_last(), id)
    } else {
        without(s.drop_last(), id).push(s.last())
    }
}

/// No entry named `id` is left.
pub proof fn lemma_without_lacks<V>(s: Seq<(String, V)>, id: Seq<char>)
    ensures
        forall|k: int| 0 <= k < without(s, id).len() ==> (#[trigger] without(s, id)[k]).0@ != id,
        entry_index(without(s, id), id) == without(s, id).len(),
    decreases s.len(),
{
    if s.len() > 0 {
        lemma_without_lacks(s.drop_last(), id);
    }
    let w = without(s, id);
    lemma_entry_index(w, id);
    if entry_index(w, id) < w.len() {
        assert(w[entry_index(w, id)].0@ == id);
    }
}

/// Removes every entry of `v` named `id`.
pub fn remove_entries<V>(v: &mut Vec<(String, V)>, id: &str)
    ensures
        final(v)@ == without(old(v)@, id@),
{
    let ghost start = v@;
    let mut i: usize = 0;
    let ghost mut j: int = 0;
    assert(start.subrange(0, 0) =~= Seq::<(String, V)>::empty());
    assert(start.subrange(0, start.len() as int) =~= start);
    while i < v.len()
        invariant
            0 <= j <= start.len(),
            i == without(start.subrange(0, j), id@).len(),
            v@ == without(start.subrange(0, j), id@) + start.subrange(j, start.len() as int),
        decreases v@.len() - i,
    {
        let ghost pre = start.subrange(0, j);
        let ghost next = start.subrange(0, j + 1);
        assert(next.drop_last() == pre);
        assert(v@[i as int] == start[j]);
        assert(next.last() == start[j]);
        if same_text(v[i].0.as_str(), id) {
            v.remove(i);
            assert(v@ =~= without(next, id@) + start.subrange(j + 1, start.len() as int));
        } else {
            assert(v@ =~= without(next, id@) + start.subrange(j + 1, start.len() as int));
            i = i + 1;
        }
        proof {
            j = j + 1;
        }
    }
    assert(j == start.len()) by {
        if j < start.len() {
            assert(v@.len() == i + (start.len() - j));
        }
    }
    assert(start.subrange(0, j) =~= start);
    assert(v@ =~= without(start, id@));
}

/// No two entries of `s` share a name.
pub open spec fn unique_names<V>(s: Seq<(String, V)>) -> bool {
    forall|i: int, j: int| 0 <= i < j < s.len() ==> (#[trigger] s[i]).0@ != (#[trigger] s[j]).0@
}

/// An entry named `id` is absent exactly where the lookup finds none.
pub proof fn lemma_entry_absent<V>(s: Seq<(String, V)>, id: Seq<char>)
    requires
        entry_index(s, id) >= s.len(),
    ensures
        forall|j: int| 0 <= j < s.len() ==> (#[trigger] s[j]).0@ != id,
{
    lemma_entry_index(s, id);
}

/// Adding an entry under a name not yet used keeps names unique.
pub proof fn lemma_unique_push<V>(s: Seq<(String, V)>, e: (String, V))
    requires
        unique_names(s),
        entry_index(s, e.0@) >= s.len(),
    ensures
        unique_names(s.push(e)),
{
    lemma_entry_absent(s, e.0@);
    let t = s.push(e);
    assert forall|i: int, j: int| 0 <= i < j < t.len() implies (#[trigger] t[i]).0@ != (#[trigger] t[j]).0@ by {
        if j == s.len() {
            assert(t[i] == s[i]);
        } else {
            assert(t[i] == s[i] && t[j] == s[j]);
        }
    }
}

/// Every entry left by `without` is an entry of `s`.
pub proof fn lemma_without_from<V>(s: Seq<(String, V)>, id: Seq<char>)
    ensures
        forall|k: int|
            0 <= k < without(s, id).len() ==> exists|m: int| 0 <= m < s.len() && #[trigger] without(s, id)[k] == s[m],
    decreases s.len(),
{
    if s.len() > 0 {
        lemma_without_from(s.drop_last(), id);
        let w = without(s, id);
        let w0 = without(s.drop_last(), id);
        assert forall|k: int| 0 <= k < w.len() implies exists|m: int| 0 <= m < s.len() && #[trigger] w[k] == s[m] by {
            if k < w0.len() {
                assert(w[k] == w0[k]);
                let m = choose|m: int| 0 <= m < s.drop_last().len() && w0[k] == s.drop_last()[m];
                assert(s[m] == s.drop_last()[m]);
            } else {
                assert(w[k] == s[s.len() - 1]);
            }
        }
    }
}

/// Removing entries keeps names unique.
pub proof fn lemma_unique_without<V>(s: Seq<(String, V)>, id: Seq<char>)
    requires
        unique_names(s),
    ensures
        unique_names(without(s, id)),
    decreases s.len(),
{
    if s.len() > 0 {
        let d = s.drop_last();
        assert(unique_names(d)) by {
            assert forall|i: int, j: int| 0 <= i < j < d.len() implies (#[trigger] d[i]).0@ != (#[trigger] d[j]).0@ by {
                assert(d[i] == s[i] && d[j] == s[j]);
            }
        }
        lemma_unique_without(d, id);
        if s.last().0@ != id {
            let w0 = without(d, id);
            lemma_without_from(d, id);
            let w = w0.push(s.last());
            assert forall|i: int, j: int| 0 <= i < j < w.len() implies (#[trigger] w[i]).0@ != (#[trigger] w[j]).0@ by {
                if j == w0.len() {
                    assert(w[i] == w0[i]);
                    let m = choose|m: int| 0 <= m < d.len() && w0[i] == d[m];
                    assert(d[m] == s[m]);
                    assert(s[m].0@ != s[s.len() - 1].0@);
                } else {
                    assert(w[i] == w0[i] && w[j] == w0[j]);
                }
            }
        }
    }
}

} // verus!
