//! Cycling through the themes: each step goes to the theme that follows in
//! the order of names (after the last, the first), so that as many steps as
//! there are themes visit every theme once and come back.
use vstd::prelude::*;
use vstd::relations::{is_minimal, total_ordering};
use vstd::arithmetic::div_mod::{lemma_add_mod_noop, lemma_mod_self_0, lemma_small_mod};
use crate::config::{
    is_next_name, lemma_lex_antisymmetric, lemma_lex_total, lemma_lex_transitive,
    lemma_next_name_unique, lex_le, lex_lt,
};

verus! {

broadcast use vstd::set::group_set_axioms, vstd::set_lib::group_set_properties;

/// The order of names as a relation.
pub open spec fn name_order() -> spec_fn(Seq<char>, Seq<char>) -> bool {
    |a: Seq<char>, b: Seq<char>| lex_le(a, b)
}

/// The order of names is a total order.
pub proof fn lemma_name_order_total()
    ensures
        total_ordering(name_order()),
{
    let r = name_order();
    assert forall|a: Seq<char>| #[trigger] r(a, a) by {
        lemma_lex_total(a, a);
    }
    assert forall|a: Seq<char>, b: Seq<char>| #[trigger] r(a, b) && #[trigger] r(b, a) implies a
        == b by {
        lemma_lex_antisymmetric(a, b);
    }
    assert forall|a: Seq<char>, b: Seq<char>, c: Seq<char>| #[trigger] r(a, b) && #[trigger] r(
        b,
        c,
    ) implies r(a, c) by {
        lemma_lex_transitive(a, b, c);
    }
    assert forall|a: Seq<char>, b: Seq<char>| #[trigger] r(a, b) || #[trigger] r(b, a) by {
        lemma_lex_total(a, b);
    }
}

/// A finite, non-empty set of names has a least one.
proof fn lemma_least_exists(s: Set<Seq<char>>) -> (m: Seq<char>)
    requires
        s.finite(),
        s.len() > 0,
    ensures
        s.contains(m),
        forall|x: Seq<char>| #[trigger] s.contains(x) ==> lex_le(m, x),
{
    lemma_name_order_total();
    s.find_unique_minimal_ensures(name_order());
    let m = s.find_unique_minimal(name_order());
    assert(is_minimal(name_order(), m, s));
    assert forall|x: Seq<char>| #[trigger] s.contains(x) implies lex_le(m, x) by {
        lemma_lex_total(m, x);
        if lex_le(x, m) {
            assert(name_order()(x, m));
            assert(name_order()(m, x));
        }
    }
    m
}

/// There is a theme that follows `cur` among a non-empty list of names.
pub proof fn lemma_next_name_exists(ns: Seq<Seq<char>>, cur: Seq<char>) -> (r: Seq<char>)
    requires
        ns.len() > 0,
    ensures
        is_next_name(ns, cur, r),
{
    let s = ns.to_set();
    assert(s.finite()) by {
        ns.lemma_cardinality_of_set();
    }
    let after = s.filter(|x: Seq<char>| lex_lt(cur, x));
    if exists|i: int| 0 <= i < ns.len() && lex_lt(cur, #[trigger] ns[i]) {
        let i = choose|i: int| 0 <= i < ns.len() && lex_lt(cur, #[trigger] ns[i]);
        assert(after.contains(ns[i]));
        assert(after.len() > 0);
        let m = lemma_least_exists(after);
        assert forall|k: int| 0 <= k < ns.len() && lex_lt(cur, #[trigger] ns[k]) implies lex_le(
            m,
            ns[k],
        ) by {
            assert(after.contains(ns[k]));
        }
        m
    } else {
        assert(s.contains(ns[0]));
        let m = lemma_least_exists(s);
        assert forall|k: int| 0 <= k < ns.len() implies lex_le(m, #[trigger] ns[k]) by {
            assert(s.contains(ns[k]));
        }
        m
    }
}

/// The theme that follows `cur` among the names `ns` (see `is_next_name`).
pub open spec fn following_name(ns: Seq<Seq<char>>, cur: Seq<char>) -> Seq<char> {
    choose|r: Seq<char>| is_next_name(ns, cur, r)
}

/// The theme reached from `cur` after `k` steps.
pub open spec fn cycled(ns: Seq<Seq<char>>, cur: Seq<char>, k: nat) -> Seq<char>
    decreases k,
{
    if k == 0 {
        cur
    } else {
        following_name(ns, cycled(ns, cur, (k - 1) as nat))
    }
}

/// The number of names that come before `x`.
pub open spec fn rank(ns: Seq<Seq<char>>, x: Seq<char>) -> nat {
    ns.to_set().filter(|y: Seq<char>| lex_lt(y, x)).len()
}

/// The names that come before `x`.
spec fn before(ns: Seq<Seq<char>>, x: Seq<char>) -> Set<Seq<char>> {
    ns.to_set().filter(|y: Seq<char>| lex_lt(y, x))
}

/// A name comes after fewer names than there are names.
proof fn lemma_rank_bound(ns: Seq<Seq<char>>, x: Seq<char>)
    requires
        ns.no_duplicates(),
        ns.contains(x),
    ensures
        rank(ns, x) < ns.len(),
{
    let s = ns.to_set();
    ns.unique_seq_to_set();
    assert(before(ns, x).subset_of(s.remove(x)));
    vstd::set_lib::lemma_len_subset(before(ns, x), s.remove(x));
}

/// A name that comes after another comes after more names.
proof fn lemma_rank_grows(ns: Seq<Seq<char>>, x: Seq<char>, y: Seq<char>)
    requires
        ns.contains(x),
        ns.contains(y),
        lex_lt(x, y),
    ensures
        rank(ns, x) < rank(ns, y),
{
    let s = ns.to_set();
    ns.lemma_cardinality_of_set();
    assert forall|z: Seq<char>| #[trigger] before(ns, x).insert(x).contains(z) implies before(
        ns,
        y,
    ).contains(z) by {
        if z != x {
            lemma_lex_transitive(z, x, y);
            if z == y {
                lemma_lex_antisymmetric(x, y);
            }
        }
    }
    vstd::set_lib::lemma_len_subset(before(ns, x).insert(x), before(ns, y));
}

/// Different names come after different numbers of names.
proof fn lemma_rank_injective(ns: Seq<Seq<char>>, x: Seq<char>, y: Seq<char>)
    requires
        ns.contains(x),
        ns.contains(y),
        rank(ns, x) == rank(ns, y),
    ensures
        x == y,
{
    lemma_lex_total(x, y);
    if x != y {
        if lex_le(x, y) {
            lemma_rank_grows(ns, x, y);
        } else {
            lemma_rank_grows(ns, y, x);
        }
    }
}

/// The theme that follows comes after one more name, or after none past
/// the last.
proof fn lemma_rank_step(ns: Seq<Seq<char>>, x: Seq<char>)
    requires
        ns.no_duplicates(),
        ns.contains(x),
    ensures
        ns.contains(following_name(ns, x)),
        rank(ns, following_name(ns, x)) == ((rank(ns, x) + 1) as int) % (ns.len() as int),
{
    let n = ns.len();
    let s = ns.to_set();
    ns.unique_seq_to_set();
    lemma_next_name_exists(ns, x);
    let g = following_name(ns, x);
    assert(is_next_name(ns, x, g));
    lemma_rank_bound(ns, x);
    if exists|i: int| 0 <= i < ns.len() && lex_lt(x, #[trigger] ns[i]) {
        assert forall|z: Seq<char>| #[trigger] before(ns, g).contains(z) implies before(
            ns,
            x,
        ).insert(x).contains(z) by {
            let k = choose|k: int| 0 <= k < ns.len() && ns[k] == z;
            lemma_lex_total(x, z);
            if z != x && lex_le(x, z) {
                assert(lex_lt(x, ns[k]));
                assert(lex_le(g, z));
                lemma_lex_antisymmetric(g, z);
            }
        }
        assert forall|z: Seq<char>| #[trigger] before(ns, x).insert(x).contains(z) implies before(
            ns,
            g,
        ).contains(z) by {
            if z != x {
                lemma_lex_transitive(z, x, g);
                if z == g {
                    lemma_lex_antisymmetric(x, g);
                }
            }
        }
        assert(before(ns, g) =~= before(ns, x).insert(x));
        assert(rank(ns, g) == rank(ns, x) + 1);
        lemma_rank_bound(ns, g);
        lemma_small_mod((rank(ns, x) + 1) as nat, n);
    } else {
        assert forall|z: Seq<char>| #[trigger] s.remove(x).contains(z) implies before(
            ns,
            x,
        ).contains(z) by {
            let k = choose|k: int| 0 <= k < ns.len() && ns[k] == z;
            lemma_lex_total(x, z);
            if lex_le(x, z) {
                assert(lex_lt(x, ns[k]));
            }
        }
        assert(before(ns, x) =~= s.remove(x));
        assert(rank(ns, x) == n - 1);
        assert forall|z: Seq<char>| !#[trigger] before(ns, g).contains(z) by {
            if before(ns, g).contains(z) {
                let k = choose|k: int| 0 <= k < ns.len() && ns[k] == z;
                assert(lex_le(g, ns[k]));
                lemma_lex_antisymmetric(g, z);
            }
        }
        assert(before(ns, g) =~= Set::<Seq<char>>::empty());
        lemma_mod_self_0(n as int);
    }
}

/// After `k` steps the theme comes after `k` more names than the first,
/// counted round the list.
proof fn lemma_cycled_rank(ns: Seq<Seq<char>>, cur: Seq<char>, k: nat)
    requires
        ns.no_duplicates(),
        ns.contains(cur),
    ensures
        ns.contains(cycled(ns, cur, k)),
        rank(ns, cycled(ns, cur, k)) == ((rank(ns, cur) + k) as int) % (ns.len() as int),
    decreases k,
{
    let n = ns.len() as int;
    lemma_rank_bound(ns, cur);
    if k == 0 {
        lemma_small_mod(rank(ns, cur), n as nat);
    } else {
        lemma_cycled_rank(ns, cur, (k - 1) as nat);
        let prev = cycled(ns, cur, (k - 1) as nat);
        lemma_rank_step(ns, prev);
        lemma_add_mod_noop(rank(ns, cur) + k - 1, 1, n);
        if n > 1 {
            lemma_small_mod(1, n as nat);
        }
    }
}

/// Cycling through the themes visits them all and comes back: from any
/// theme among distinct names, as many steps as there are names lead back
/// to it, and every name is reached on the way.
pub proof fn lemma_cycling_visits_every_theme(ns: Seq<Seq<char>>, cur: Seq<char>)
    requires
        ns.no_duplicates(),
        ns.contains(cur),
    ensures
        cycled(ns, cur, ns.len()) == cur,
        forall|x: Seq<char>|
            #![trigger ns.contains(x)]
            ns.contains(x) ==> exists|k: nat| k < ns.len() && cycled(ns, cur, k) == x,
{
    let n = ns.len() as int;
    lemma_cycled_rank(ns, cur, ns.len());
    lemma_rank_bound(ns, cur);
    lemma_add_mod_noop(rank(ns, cur) as int, n, n);
    lemma_mod_self_0(n);
    lemma_small_mod(rank(ns, cur), n as nat);
    lemma_rank_injective(ns, cycled(ns, cur, ns.len()), cur);
    assert forall|x: Seq<char>| #![trigger ns.contains(x)] ns.contains(x) implies exists|k: nat|
        k < ns.len() && cycled(ns, cur, k) == x by {
        lemma_rank_bound(ns, x);
        let k: nat = if rank(ns, x) >= rank(ns, cur) {
            (rank(ns, x) - rank(ns, cur)) as nat
        } else {
            (n + rank(ns, x) - rank(ns, cur)) as nat
        };
        lemma_cycled_rank(ns, cur, k);
        if rank(ns, x) >= rank(ns, cur) {
            lemma_small_mod(rank(ns, x), n as nat);
        } else {
            lemma_add_mod_noop(rank(ns, x) as int, n, n);
            lemma_small_mod(rank(ns, x), n as nat);
        }
        lemma_rank_injective(ns, cycled(ns, cur, k), x);
    }
}

/// The theme that the editor moves to is the one that follows (see
/// `following_name`).
pub proof fn lemma_next_name_is_following(ns: Seq<Seq<char>>, cur: Seq<char>, r: Seq<char>)
    requires
        is_next_name(ns, cur, r),
    ensures
        r == following_name(ns, cur),
{
    lemma_next_name_unique(ns, cur, r, following_name(ns, cur));
}

} // verus!
