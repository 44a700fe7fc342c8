//! Splitting buffered input into countable units and joining selected units
//! back into output. In line mode a unit is one delimiter-separated line; a
//! trailing fragment with no final delimiter still counts as a unit.

use vstd::prelude::*;

verus! {

/// The line delimiter a configuration selects: NUL under zero-terminated
/// mode, newline otherwise.
pub open spec fn delimiter(zero_terminated: bool) -> u8 {
    if zero_terminated {
        0u8
    } else {
        10u8
    }
}

/// The delimiter-separated units of a byte sequence. Empty input has no
/// units; a final unit without a trailing delimiter is still a unit, so
/// `a\nb` and `a\nb\n` both split into two.
pub open spec fn split_units(data: Seq<u8>, d: u8) -> Seq<Seq<u8>>
    decreases data.len(),
{
    if data.len() == 0 {
        Seq::empty()
    } else if data[0] == d {
        seq![Seq::<u8>::empty()] + split_units(data.skip(1), d)
    } else {
        let rest = split_units(data.skip(1), d);
        if rest.len() == 0 {
            seq![data]
        } else {
            seq![seq![data[0]] + rest[0]] + rest.skip(1)
        }
    }
}

/// Units rendered back to bytes: each unit followed by one delimiter.
pub open spec fn join_units(units: Seq<Seq<u8>>, d: u8) -> Seq<u8>
    decreases units.len(),
{
    if units.len() == 0 {
        Seq::empty()
    } else {
        units[0] + seq![d] + join_units(units.skip(1), d)
    }
}

pub open spec fn has_no_delim(u: Seq<u8>, d: u8) -> bool {
    forall|i: int| 0 <= i < u.len() ==> u[i] != d
}

pub open spec fn all_without_delim(units: Seq<Seq<u8>>, d: u8) -> bool {
    forall|i: int| 0 <= i < units.len() ==> has_no_delim(#[trigger] units[i], d)
}

/// A non-empty delimiter-free sequence is a single unit.
proof fn lemma_split_no_delim(s: Seq<u8>, d: u8)
    requires
        has_no_delim(s, d),
    ensures
        split_units(s, d) == if s.len() == 0 {
            Seq::<Seq<u8>>::empty()
        } else {
            seq![s]
        },
    decreases s.len(),
{
    if s.len() > 0 {
        let t = s.skip(1);
        assert(has_no_delim(t, d)) by {
            assert(forall|i: int| 0 <= i < t.len() ==> t[i] == s[i + 1]);
        }
        lemma_split_no_delim(t, d);
        if t.len() == 0 {
        } else {
            assert(split_units(s, d) == seq![seq![s[0]] + t]);
            assert(seq![s[0]] + t =~= s);
            assert(seq![seq![s[0]] + t] =~= seq![s]);
        }
    }
}

/// Splitting after a complete delimiter-free unit yields that unit and then
/// the split of what follows.
proof fn lemma_split_prepend_unit(u: Seq<u8>, rest: Seq<u8>, d: u8)
    requires
        has_no_delim(u, d),
    ensures
        split_units(u + seq![d] + rest, d) == seq![u] + split_units(rest, d),
    decreases u.len(),
{
    let whole = u + seq![d] + rest;
    if u.len() == 0 {
        assert(whole =~= seq![d] + rest);
        assert(whole[0] == d);
        assert(whole.skip(1) =~= rest);
        assert(split_units(whole, d) == seq![Seq::<u8>::empty()] + split_units(rest, d));
        assert(u =~= Seq::<u8>::empty());
        assert(seq![Seq::<u8>::empty()] + split_units(rest, d) =~~= seq![u] + split_units(rest, d));
    } else {
        let t = u.skip(1);
        assert(has_no_delim(t, d)) by {
            assert(forall|i: int| 0 <= i < t.len() ==> t[i] == u[i + 1]);
        }
        lemma_split_prepend_unit(t, rest, d);
        assert(whole[0] == u[0]);
        assert(whole[0] != d);
        assert(whole.skip(1) =~= t + seq![d] + rest);
        let inner = split_units(t + seq![d] + rest, d);
        assert(inner == seq![t] + split_units(rest, d));
        assert(inner.len() > 0);
        assert(split_units(whole, d) == seq![seq![whole[0]] + inner[0]] + inner.skip(1));
        assert(inner[0] == t);
        assert(seq![u[0]] + t =~= u);
        assert(inner.skip(1) =~= split_units(rest, d));
        assert(seq![seq![whole[0]] + inner[0]] + inner.skip(1) =~= seq![u] + split_units(rest, d));
    }
}

/// Splitting a join of complete units followed by a delimiter-free tail
/// recovers the units, with the tail as one more unit when it is non-empty.
proof fn lemma_split_of_join(units: Seq<Seq<u8>>, tail: Seq<u8>, d: u8)
    requires
        all_without_delim(units, d),
        has_no_delim(tail, d),
    ensures
        split_units(join_units(units, d) + tail, d) == if tail.len() == 0 {
            units
        } else {
            units.push(tail)
        },
    decreases units.len(),
{
    if units.len() == 0 {
        assert(join_units(units, d) + tail =~= tail);
        lemma_split_no_delim(tail, d);
        if tail.len() == 0 {
            assert(split_units(tail, d) =~= units);
        } else {
            assert(seq![tail] =~= units.push(tail));
        }
    } else {
        let u = units[0];
        let rest = units.skip(1);
        assert(all_without_delim(rest, d)) by {
            assert(forall|i: int| 0 <= i < rest.len() ==> rest[i] == units[i + 1]);
        }
        lemma_split_of_join(rest, tail, d);
        assert(join_units(units, d) + tail =~= u + seq![d] + (join_units(rest, d) + tail));
        lemma_split_prepend_unit(u, join_units(rest, d) + tail, d);
        if tail.len() == 0 {
            assert(seq![u] + rest =~= units);
        } else {
            assert(seq![u] + rest.push(tail) =~= units.push(tail));
        }
    }
}

/// The view of a vector of units, unit by unit.
pub open spec fn units_view(units: Seq<Vec<u8>>) -> Seq<Seq<u8>> {
    units.map_values(|u: Vec<u8>| u@)
}

/// Splits buffered input into delimiter-separated units, the way `head`
/// counts lines.
pub fn split_into_units(data: &Vec<u8>, d: u8) -> (units: Vec<Vec<u8>>)
    ensures
        units_view(units@) == split_units(data@, d),
{
    let n = data.len();
    let mut done: Vec<Vec<u8>> = Vec::new();
    let mut cur: Vec<u8> = Vec::new();
    let mut i: usize = 0;
    proof {
        assert(join_units(units_view(done@), d) + cur@ =~= data@.take(0));
    }
    while i < n
        invariant
            0 <= i <= n,
            n == data@.len(),
            all_without_delim(units_view(done@), d),
            has_no_delim(cur@, d),
            join_units(units_view(done@), d) + cur@ == data@.take(i as int),
        decreases n - i,
    {
        let b = data[i];
        if b == d {
            let ghost old_done = units_view(done@);
            let ghost old_cur = cur@;
            done.push(cur);
            cur = Vec::new();
            proof {
                assert(units_view(done@) =~= old_done.push(old_cur));
                lemma_join_push(old_done, old_cur, d);
                assert(join_units(units_view(done@), d) == join_units(old_done, d) + old_cur
                    + seq![d]);
                assert(data@.take(i + 1) =~= data@.take(i as int).push(d));
                assert(join_units(units_view(done@), d) + cur@ =~= data@.take(i + 1));
            }
        } else {
            let ghost old_cur = cur@;
            cur.push(b);
            proof {
                assert(cur@ == old_cur.push(b));
                assert(data@.take(i + 1) =~= data@.take(i as int).push(b));
                assert(join_units(units_view(done@), d) + cur@ =~= data@.take(i + 1));
            }
        }
        i = i + 1;
    }
    proof {
        assert(data@.take(n as int) =~= data@);
        lemma_split_of_join(units_view(done@), cur@, d);
    }
    if cur.len() > 0 {
        let ghost old_done = done@;
        done.push(cur);
        proof {
            assert(units_view(done@) =~= units_view(old_done).push(cur@));
        }
    }
    done
}

/// Joining after appending one more unit appends that unit and a delimiter.
proof fn lemma_join_push(units: Seq<Seq<u8>>, u: Seq<u8>, d: u8)
    ensures
        join_units(units.push(u), d) == join_units(units, d) + u + seq![d],
    decreases units.len(),
{
    let p = units.push(u);
    if units.len() == 0 {
        assert(p[0] == u);
        assert(p.skip(1) =~= Seq::<Seq<u8>>::empty());
        assert(join_units(p.skip(1), d) == Seq::<u8>::empty());
        assert(join_units(units, d) == Seq::<u8>::empty());
        assert(join_units(p, d) == p[0] + seq![d] + join_units(p.skip(1), d));
        assert(join_units(p, d) =~= join_units(units, d) + u + seq![d]);
    } else {
        assert(p.skip(1) =~= units.skip(1).push(u));
        lemma_join_push(units.skip(1), u, d);
        assert(p[0] == units[0]);
        assert(join_units(p, d) == p[0] + seq![d] + join_units(p.skip(1), d));
        assert(join_units(p.skip(1), d) == join_units(units.skip(1), d) + u + seq![d]);
        assert(join_units(units, d) == units[0] + seq![d] + join_units(units.skip(1), d));
        assert(join_units(p, d) =~= join_units(units, d) + u + seq![d]);
    }
}

/// Joining one more leading unit prepends that unit and a delimiter.
pub proof fn lemma_join_take_step(units: Seq<Seq<u8>>, i: int, d: u8)
    requires
        0 <= i < units.len(),
    ensures
        join_units(units.take(i + 1), d) == join_units(units.take(i), d) + units[i] + seq![d],
{
    assert(units.take(i + 1) =~= units.take(i).push(units[i]));
    lemma_join_push(units.take(i), units[i], d);
}

} // verus!
