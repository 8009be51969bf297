//! Pairings of the ports of a tile: which port leads to which, how a
//! pairing turns with the tile, and how all pairings are counted and listed.
use crate::cyclic::{
    add_mod, add_mod_u32, lemma_add_mod, lemma_add_mod_twice, lemma_add_sub_cancel, lemma_sub_mod,
    lemma_sub_mod_twice, sub_mod, sub_mod_u32,
};
use vstd::prelude::*;

verus! {

/// Every port is paired with exactly one other port, and the pairing is
/// symmetric.
pub open spec fn is_pairing(c: Seq<nat>) -> bool {
    forall|p: int|
        0 <= p < c.len() ==> (#[trigger] c[p]) < c.len() && c[p] != p && c[c[p] as int] == p
}

/// The pairing `c` with every port moved `s` positions forward.
pub open spec fn rotate_pairing(c: Seq<nat>, s: nat) -> Seq<nat> {
    Seq::new(c.len(), |q: int| add_mod(c[sub_mod(q as nat, s, c.len()) as int], s, c.len()))
}

/// Rotating a pairing by less than a full turn gives a pairing.
pub proof fn lemma_rotate_pairing(c: Seq<nat>, s: nat)
    requires
        is_pairing(c),
        s < c.len() || c.len() == 0,
    ensures
        is_pairing(rotate_pairing(c, s)),
        rotate_pairing(c, s).len() == c.len(),
{
    let n = c.len();
    let r = rotate_pairing(c, s);
    assert forall|q: int| 0 <= q < r.len() implies (#[trigger] r[q]) < r.len() && r[q] != q
        && r[r[q] as int] == q by {
        let p = sub_mod(q as nat, s, n);
        lemma_sub_mod(q as nat, s, n);
        lemma_add_sub_cancel(q as nat, s, n);
        assert(c[p as int] < n);
        lemma_add_mod(c[p as int], s, n);
        lemma_add_sub_cancel(c[p as int], s, n);
        lemma_add_sub_cancel(p, s, n);
        assert(c[c[p as int] as int] == p);
        if r[q] == q {
            assert(sub_mod(r[q], s, n) == c[p as int]);
        }
    }
}

/// Rotating by no steps changes nothing.
pub proof fn lemma_rotate_pairing_zero(c: Seq<nat>)
    requires
        is_pairing(c),
    ensures
        rotate_pairing(c, 0) == c,
{
    let n = c.len();
    let r = rotate_pairing(c, 0);
    assert forall|q: int| 0 <= q < n implies r[q] == c[q] by {
        lemma_sub_mod(q as nat, 0, n);
        assert(c[q] < n);
        lemma_add_mod(c[q], 0, n);
    }
    assert(r =~= c);
}

/// Rotating by `s` and then by `t` is rotating by their sum on the cycle.
pub proof fn lemma_rotate_pairing_twice(c: Seq<nat>, s: nat, t: nat)
    requires
        is_pairing(c),
        s < c.len(),
        t < c.len(),
    ensures
        rotate_pairing(rotate_pairing(c, s), t) == rotate_pairing(c, add_mod(s, t, c.len())),
{
    let n = c.len();
    let a = rotate_pairing(rotate_pairing(c, s), t);
    let u = add_mod(s, t, n);
    let b = rotate_pairing(c, u);
    lemma_add_mod(s, t, n);
    assert forall|q: int| 0 <= q < n implies a[q] == b[q] by {
        let q1 = sub_mod(q as nat, t, n);
        lemma_sub_mod(q as nat, t, n);
        let q2 = sub_mod(q1, s, n);
        lemma_sub_mod(q1, s, n);
        lemma_sub_mod_twice(q as nat, s, t, n);
        assert(q2 == sub_mod(q as nat, u, n));
        assert(c[q2 as int] < n);
        lemma_add_mod(c[q2 as int], s, n);
        lemma_add_mod_twice(c[q2 as int], s, t, n);
    }
    assert(a =~= b);
}

/// Number of ways to pair up `n` ports: none when `n` is odd.
pub open spec fn matching_count(n: nat) -> nat
    decreases n,
{
    if n == 0 {
        1
    } else if n == 1 {
        0
    } else {
        ((n - 1) as nat) * matching_count((n - 2) as nat)
    }
}

/// Pairs up the ports listed in `free`, steered by `code`: the first free
/// port is joined to the free port that `code` selects, and the quotient
/// steers the rest.
pub open spec fn pair_up(conn: Seq<nat>, free: Seq<nat>, code: nat) -> Seq<nat>
    decreases free.len(),
{
    if free.len() < 2 {
        conn
    } else {
        let m = (free.len() - 1) as nat;
        let j = 1 + (code % m) as int;
        pair_up(
            conn.update(free[0] as int, free[j]).update(free[j] as int, free[0]),
            free.remove(j).remove(0),
            code / m,
        )
    }
}

/// The pairing of `n` ports that `code` stands for.
pub open spec fn nth_matching(n: nat, code: nat) -> Seq<nat> {
    pair_up(Seq::new(n, |i: int| 0nat), Seq::new(n, |i: int| i as nat), code)
}

/// The ports outside `free` are already paired among themselves.
pub open spec fn partly_paired(conn: Seq<nat>, free: Seq<nat>) -> bool {
    &&& free.no_duplicates()
    &&& forall|i: int| 0 <= i < free.len() ==> (#[trigger] free[i]) < conn.len()
    &&& forall|p: int|
        0 <= p < conn.len() && !free.contains(p as nat) ==> {
            &&& (#[trigger] conn[p]) < conn.len()
            &&& conn[p] != p
            &&& !free.contains(conn[p])
            &&& conn[conn[p] as int] == p
        }
}

/// Taking the first free port and the one at `j` out of the list leaves
/// the other free ports, each once.
pub proof fn lemma_without_pair(free: Seq<nat>, j: int)
    requires
        free.no_duplicates(),
        1 <= j < free.len(),
    ensures
        free.remove(j).remove(0).no_duplicates(),
        free.remove(j).remove(0).len() == free.len() - 2,
        free[0] != free[j],
        forall|x: nat|
            free.remove(j).remove(0).contains(x) <==> free.contains(x) && x != free[0] && x
                != free[j],
{
    let rest = free.remove(j).remove(0);
    assert forall|x: nat| rest.contains(x) implies free.contains(x) && x != free[0] && x
        != free[j] by {
        let i = choose|i: int| 0 <= i < rest.len() && rest[i] == x;
        if i + 1 < j {
            assert(rest[i] == free[i + 1]);
        } else {
            assert(rest[i] == free[i + 2]);
        }
    }
    assert forall|x: nat| free.contains(x) && x != free[0] && x != free[j] implies rest.contains(
        x,
    ) by {
        let i = choose|i: int| 0 <= i < free.len() && free[i] == x;
        if i < j {
            assert(rest[i - 1] == x);
        } else {
            assert(rest[i - 2] == x);
        }
    }
    assert forall|i: int, k: int| 0 <= i < rest.len() && 0 <= k < rest.len() && i != k implies rest[i]
        != rest[k] by {
        let fi = if i + 1 < j {
            i + 1
        } else {
            i + 2
        };
        let fk = if k + 1 < j {
            k + 1
        } else {
            k + 2
        };
        assert(rest[i] == free[fi]);
        assert(rest[k] == free[fk]);
    }
}

/// Ports that are in range stay in range when two of them are joined.
pub proof fn lemma_rest_in_range(conn: Seq<nat>, free: Seq<nat>, j: int)
    requires
        free.no_duplicates(),
        1 <= j < free.len(),
        forall|i: int| 0 <= i < free.len() ==> (#[trigger] free[i]) < conn.len(),
    ensures
        forall|i: int|
            0 <= i < free.remove(j).remove(0).len() ==> (#[trigger] free.remove(j).remove(0)[i])
                < conn.len(),
{
    let rest = free.remove(j).remove(0);
    lemma_without_pair(free, j);
    assert forall|i: int| 0 <= i < rest.len() implies (#[trigger] rest[i]) < conn.len() by {
        assert(rest.contains(rest[i]));
        let k = choose|k: int| 0 <= k < free.len() && free[k] == rest[i];
    }
}

/// Pairing up an even number of free ports completes a pairing.
pub proof fn lemma_pair_up(conn: Seq<nat>, free: Seq<nat>, code: nat)
    requires
        partly_paired(conn, free),
        free.len() % 2 == 0,
    ensures
        is_pairing(pair_up(conn, free, code)),
        pair_up(conn, free, code).len() == conn.len(),
    decreases free.len(),
{
    if free.len() < 2 {
        assert(free.len() == 0);
    } else {
        let m = (free.len() - 1) as nat;
        vstd::arithmetic::div_mod::lemma_mod_pos_bound(code as int, m as int);
        let j = 1 + (code % m) as int;
        let a = free[0];
        let b = free[j];
        let conn2 = conn.update(a as int, b).update(b as int, a);
        let free2 = free.remove(j).remove(0);
        lemma_without_pair(free, j);
        lemma_rest_in_range(conn, free, j);
        assert(free.contains(a));
        assert(free.contains(b));
        assert forall|p: int| 0 <= p < conn2.len() && !free2.contains(p as nat) implies {
            &&& (#[trigger] conn2[p]) < conn2.len()
            &&& conn2[p] != p
            &&& !free2.contains(conn2[p])
            &&& conn2[conn2[p] as int] == p
        } by {
            if p == a || p == b {
            } else {
                assert(!free.contains(p as nat));
                assert(conn[p] != a && conn[p] != b);
            }
        }
        lemma_pair_up(conn2, free2, code / m);
    }
}

/// Every code stands for a pairing of an even number of ports.
pub proof fn lemma_nth_matching(n: nat, code: nat)
    requires
        n % 2 == 0,
    ensures
        is_pairing(nth_matching(n, code)),
        nth_matching(n, code).len() == n,
{
    let conn = Seq::new(n, |i: int| 0nat);
    let free = Seq::new(n, |i: int| i as nat);
    assert forall|p: int| 0 <= p < conn.len() && !free.contains(p as nat) implies {
        &&& (#[trigger] conn[p]) < conn.len()
        &&& conn[p] != p
        &&& !free.contains(conn[p])
        &&& conn[conn[p] as int] == p
    } by {
        assert(free[p] == p as nat);
    }
    lemma_pair_up(conn, free, code);
}

/// An odd number of ports cannot be paired up.
pub proof fn lemma_matching_count_odd(n: nat)
    requires
        n % 2 == 1,
    ensures
        matching_count(n) == 0,
    decreases n,
{
    if n > 1 {
        lemma_matching_count_odd((n - 2) as nat);
        assert(((n - 1) as nat) * 0 == 0);
    }
}

/// Among even numbers of ports, more ports never give fewer pairings.
pub proof fn lemma_matching_count_grows(m: nat, n: nat)
    requires
        m % 2 == 0,
        n % 2 == 0,
        m <= n,
    ensures
        1 <= matching_count(m) <= matching_count(n),
    decreases n,
{
    if n == 0 {
    } else if m == n {
        lemma_matching_count_grows((n - 2) as nat, (n - 2) as nat);
        assert(matching_count((n - 2) as nat) <= ((n - 1) as nat) * matching_count(
            (n - 2) as nat,
        )) by (nonlinear_arith)
            requires
                n >= 2,
        ;
    } else {
        lemma_matching_count_grows(m, (n - 2) as nat);
        assert(matching_count((n - 2) as nat) <= ((n - 1) as nat) * matching_count(
            (n - 2) as nat,
        )) by (nonlinear_arith)
            requires
                n >= 2,
        ;
    }
}

/// Pairing up the free ports leaves the other ports as they are.
pub proof fn lemma_pair_up_keeps(conn: Seq<nat>, free: Seq<nat>, code: nat, p: int)
    requires
        free.no_duplicates(),
        forall|i: int| 0 <= i < free.len() ==> (#[trigger] free[i]) < conn.len(),
        0 <= p < conn.len(),
        !free.contains(p as nat),
    ensures
        pair_up(conn, free, code).len() == conn.len(),
        pair_up(conn, free, code)[p] == conn[p],
    decreases free.len(),
{
    if free.len() >= 2 {
        let m = (free.len() - 1) as nat;
        vstd::arithmetic::div_mod::lemma_mod_pos_bound(code as int, m as int);
        let j = 1 + (code % m) as int;
        let a = free[0];
        let b = free[j];
        let conn2 = conn.update(a as int, b).update(b as int, a);
        assert(free.contains(a));
        assert(free.contains(b));
        lemma_without_pair(free, j);
        lemma_rest_in_range(conn, free, j);
        lemma_pair_up_keeps(conn2, free.remove(j).remove(0), code / m, p);
    }
}

/// Pairing up gives the first free port the partner that the code selects.
pub proof fn lemma_pair_up_first(conn: Seq<nat>, free: Seq<nat>, code: nat)
    requires
        free.no_duplicates(),
        forall|i: int| 0 <= i < free.len() ==> (#[trigger] free[i]) < conn.len(),
        free.len() >= 2,
    ensures
        pair_up(conn, free, code)[free[0] as int] == free[1 + (code % ((free.len() - 1) as nat)) as int],
{
    let m = (free.len() - 1) as nat;
    vstd::arithmetic::div_mod::lemma_mod_pos_bound(code as int, m as int);
    let j = 1 + (code % m) as int;
    let a = free[0];
    let b = free[j];
    let conn2 = conn.update(a as int, b).update(b as int, a);
    lemma_without_pair(free, j);
    lemma_rest_in_range(conn, free, j);
    lemma_pair_up_keeps(conn2, free.remove(j).remove(0), code / m, a as int);
}

/// A code below the number of pairings splits into a choice of partner and a
/// code below the number of pairings of the ports that remain.
pub proof fn lemma_code_split(code: nat, n: nat)
    requires
        n >= 2,
        code < matching_count(n),
    ensures
        code % ((n - 1) as nat) < n - 1,
        code / ((n - 1) as nat) < matching_count((n - 2) as nat),
        code == ((n - 1) as nat) * (code / ((n - 1) as nat)) + code % ((n - 1) as nat),
{
    let m = (n - 1) as nat;
    vstd::arithmetic::div_mod::lemma_mod_pos_bound(code as int, m as int);
    vstd::arithmetic::div_mod::lemma_fundamental_div_mod(code as int, m as int);
    vstd::arithmetic::div_mod::lemma_div_pos_is_pos(code as int, m as int);
    let q = code / m;
    let rest = matching_count((n - 2) as nat);
    assert(q < rest) by (nonlinear_arith)
        requires
            code == m * q + code % m,
            0 <= code % m,
            code < m * rest,
            m > 0,
    ;
}

/// Different codes below the number of pairings stand for different
/// pairings.
pub proof fn lemma_pair_up_distinct(conn: Seq<nat>, free: Seq<nat>, c1: nat, c2: nat)
    requires
        free.no_duplicates(),
        forall|i: int| 0 <= i < free.len() ==> (#[trigger] free[i]) < conn.len(),
        c1 < matching_count(free.len()),
        c2 < matching_count(free.len()),
        pair_up(conn, free, c1) == pair_up(conn, free, c2),
    ensures
        c1 == c2,
    decreases free.len(),
{
    if free.len() == 0 {
    } else if free.len() == 1 {
    } else {
        let m = (free.len() - 1) as nat;
        lemma_code_split(c1, free.len());
        lemma_code_split(c2, free.len());
        lemma_pair_up_first(conn, free, c1);
        lemma_pair_up_first(conn, free, c2);
        let j1 = 1 + (c1 % m) as int;
        let j2 = 1 + (c2 % m) as int;
        assert(free[j1] == free[j2]);
        assert(j1 == j2);
        let a = free[0];
        let b = free[j1];
        let conn2 = conn.update(a as int, b).update(b as int, a);
        let free2 = free.remove(j1).remove(0);
        lemma_without_pair(free, j1);
        lemma_rest_in_range(conn, free, j1);
        lemma_pair_up_distinct(conn2, free2, c1 / m, c2 / m);
    }
}

/// Different codes below the number of pairings of `n` ports stand for
/// different pairings.
pub proof fn lemma_nth_matching_distinct(n: nat, c1: nat, c2: nat)
    requires
        c1 < matching_count(n),
        c2 < matching_count(n),
        nth_matching(n, c1) == nth_matching(n, c2),
    ensures
        c1 == c2,
{
    let conn = Seq::new(n, |i: int| 0nat);
    let free = Seq::new(n, |i: int| i as nat);
    lemma_pair_up_distinct(conn, free, c1, c2);
}

/// Whether `target` is a pairing that can come of pairing up the free
/// ports: it pairs the free ports among themselves and has the other ports
/// as `conn` has them.
pub open spec fn completes(target: Seq<nat>, conn: Seq<nat>, free: Seq<nat>) -> bool {
    &&& target.len() == conn.len()
    &&& is_pairing(target)
    &&& forall|i: int| 0 <= i < free.len() ==> free.contains(target[(#[trigger] free[i]) as int])
    &&& forall|p: int|
        0 <= p < conn.len() && !free.contains(p as nat) ==> (#[trigger] target[p]) == conn[p]
}

/// Every pairing that can come of pairing up the free ports has a code
/// below the number of pairings.
pub proof fn lemma_pair_up_complete(target: Seq<nat>, conn: Seq<nat>, free: Seq<nat>) -> (code: nat)
    requires
        free.no_duplicates(),
        forall|i: int| 0 <= i < free.len() ==> (#[trigger] free[i]) < conn.len(),
        completes(target, conn, free),
    ensures
        code < matching_count(free.len()),
        pair_up(conn, free, code) == target,
    decreases free.len(),
{
    if free.len() == 0 {
        assert forall|p: int| 0 <= p < conn.len() implies target[p] == conn[p] by {
            assert(!free.contains(p as nat));
        }
        assert(target =~= conn);
        0
    } else {
        let a = free[0];
        let b = target[a as int];
        assert(free.contains(b));
        assert(b != a);
        let j = choose|j: int| 0 <= j < free.len() && free[j] == b;
        assert(j >= 1);
        let m = (free.len() - 1) as nat;
        let conn2 = conn.update(a as int, b).update(b as int, a);
        let free2 = free.remove(j).remove(0);
        lemma_without_pair(free, j);
        lemma_rest_in_range(conn, free, j);
        assert(target[b as int] == a);
        assert forall|i: int| 0 <= i < free2.len() implies free2.contains(
            target[(#[trigger] free2[i]) as int],
        ) by {
            let x = free2[i];
            assert(free2.contains(x));
            let k = choose|k: int| 0 <= k < free.len() && free[k] == x;
            assert(free.contains(target[free[k] as int]));
            let y = target[x as int];
            assert(target[y as int] == x);
        }
        assert forall|p: int| 0 <= p < conn2.len() && !free2.contains(p as nat) implies (
        #[trigger] target[p]) == conn2[p] by {
            if p == a || p == b {
            } else {
                assert(!free.contains(p as nat));
            }
        }
        let rest = lemma_pair_up_complete(target, conn2, free2);
        let code = m * rest + (j - 1) as nat;
        assert(m * rest == rest * m) by (nonlinear_arith);
        vstd::arithmetic::div_mod::lemma_fundamental_div_mod_converse(
            code as int,
            m as int,
            rest as int,
            j - 1,
        );
        assert(code < m * matching_count((free.len() - 2) as nat)) by (nonlinear_arith)
            requires
                code == m * rest + (j - 1),
                j - 1 < m,
                rest < matching_count((free.len() - 2) as nat),
        ;
        code
    }
}

/// Every pairing of `n` ports has a code below the number of pairings.
pub proof fn lemma_nth_matching_complete(target: Seq<nat>) -> (code: nat)
    requires
        is_pairing(target),
    ensures
        code < matching_count(target.len()),
        nth_matching(target.len(), code) == target,
{
    let n = target.len();
    let conn = Seq::new(n, |i: int| 0nat);
    let free = Seq::new(n, |i: int| i as nat);
    assert forall|i: int| 0 <= i < free.len() implies free.contains(
        target[(#[trigger] free[i]) as int],
    ) by {
        let y = target[i];
        assert(free[y as int] == y);
    }
    assert forall|p: int| 0 <= p < conn.len() && !free.contains(p as nat) implies (
    #[trigger] target[p]) == conn[p] by {
        assert(free[p] == p as nat);
    }
    lemma_pair_up_complete(target, conn, free)
}

/// The port numbers held in a vector, as mathematical numbers.
pub open spec fn as_nats(v: Seq<u32>) -> Seq<nat> {
    Seq::new(v.len(), |i: int| v[i] as nat)
}

/// Whether `c` pairs every port with exactly one other port.
pub fn check_pairing(c: &Vec<u32>) -> (ok: bool)
    ensures
        ok == is_pairing(as_nats(c@)),
{
    let n: usize = c.len();
    let ghost m = as_nats(c@);
    let mut p: usize = 0;
    while p < n
        invariant
            n == c.len(),
            m == as_nats(c@),
            p <= n,
            forall|q: int|
                0 <= q < p ==> (#[trigger] m[q]) < m.len() && m[q] != q && m[m[q] as int] == q,
        decreases n - p,
    {
        let t: u32 = c[p];
        assert(m[p as int] == t as nat);
        if t as usize >= n || t as usize == p {
            return false;
        }
        let back: u32 = c[t as usize];
        assert(m[t as int] == back as nat);
        if back as usize != p {
            return false;
        }
        p += 1;
    }
    true
}

/// The pairing `c` with every port moved `s` positions forward.
pub fn rotate_ports(c: &Vec<u32>, s: u32) -> (r: Vec<u32>)
    requires
        c.len() <= u32::MAX,
        is_pairing(as_nats(c@)),
        s < c.len() || c.len() == 0,
    ensures
        as_nats(r@) == rotate_pairing(as_nats(c@), s as nat),
{
    let n: u32 = c.len() as u32;
    let ghost m = as_nats(c@);
    let mut r: Vec<u32> = Vec::new();
    let mut q: u32 = 0;
    while q < n
        invariant
            n == c.len(),
            m == as_nats(c@),
            is_pairing(m),
            s < n || n == 0,
            q <= n,
            r.len() == q,
            forall|i: int|
                0 <= i < q ==> (#[trigger] r[i]) as nat == add_mod(
                    m[sub_mod(i as nat, s as nat, n as nat) as int],
                    s as nat,
                    n as nat,
                ),
        decreases n - q,
    {
        let from: u32 = sub_mod_u32(q, s, n);
        let to: u32 = c[from as usize];
        assert(m[from as int] == to as nat);
        r.push(add_mod_u32(to, s, n));
        q += 1;
    }
    assert(as_nats(r@) =~= rotate_pairing(m, s as nat));
    r
}

/// Number of ways to pair up `n` ports, if it fits the machine's numbers.
pub fn count_matchings(n: u32) -> (r: Option<u32>)
    ensures
        r.is_some() <==> matching_count(n as nat) <= u32::MAX,
        r.is_some() ==> r.unwrap() == matching_count(n as nat),
{
    if n % 2 == 1 {
        proof {
            lemma_matching_count_odd(n as nat);
        }
        return Some(0);
    }
    let mut count: u32 = 1;
    let mut m: u32 = 0;
    while m < n
        invariant
            m <= n,
            m % 2 == 0,
            n % 2 == 0,
            count == matching_count(m as nat),
        decreases n - m,
    {
        assert((count as int) * ((m + 1) as int) <= 0xffff_ffff * 0xffff_ffff) by (nonlinear_arith)
            requires
                0 <= count <= 0xffff_ffff,
                0 <= m + 1 <= 0xffff_ffff,
        ;
        let wide: u64 = (count as u64) * ((m + 1) as u64);
        assert(wide == matching_count((m + 2) as nat)) by {
            assert(((m + 1) as nat) * matching_count(m as nat) == (count as u64) * ((m + 1) as u64))
                by (nonlinear_arith)
                requires
                    count == matching_count(m as nat),
                    (count as u64) * ((m + 1) as u64) == (count as int) * ((m + 1) as int),
            ;
        }
        if wide > u32::MAX as u64 {
            proof {
                lemma_matching_count_grows((m + 2) as nat, n as nat);
            }
            return None;
        }
        count = wide as u32;
        m = m + 2;
    }
    Some(count)
}

/// The pairing of `n` ports that `code` stands for.
pub fn nth_matching_ports(n: u32, code: u32) -> (r: Vec<u32>)
    ensures
        as_nats(r@) == nth_matching(n as nat, code as nat),
        r.len() == n,
{
    let mut conn: Vec<u32> = Vec::new();
    let mut free: Vec<u32> = Vec::new();
    let mut i: u32 = 0;
    while i < n
        invariant
            i <= n,
            conn.len() == i,
            free.len() == i,
            forall|k: int| 0 <= k < i ==> (#[trigger] conn[k]) == 0,
            forall|k: int| 0 <= k < i ==> (#[trigger] free[k]) == k,
        decreases n - i,
    {
        conn.push(0);
        free.push(i);
        i += 1;
    }
    assert(as_nats(conn@) =~= Seq::new(n as nat, |i: int| 0nat));
    assert(as_nats(free@) =~= Seq::new(n as nat, |i: int| i as nat));
    let mut rest: u32 = code;
    while free.len() >= 2
        invariant
            conn.len() == n,
            free.len() <= n,
            forall|k: int| 0 <= k < free.len() ==> (#[trigger] free[k]) < n,
            pair_up(as_nats(conn@), as_nats(free@), rest as nat) == nth_matching(
                n as nat,
                code as nat,
            ),
        decreases free.len(),
    {
        let m: u32 = (free.len() - 1) as u32;
        let j: usize = 1 + (rest % m) as usize;
        let a: u32 = free[0];
        let b: u32 = free[j];
        let ghost conn0 = as_nats(conn@);
        let ghost free0 = as_nats(free@);
        assert(free0[0] == a as nat && free0[j as int] == b as nat);
        conn.set(a as usize, b);
        conn.set(b as usize, a);
        free.remove(j);
        free.remove(0);
        rest = rest / m;
        assert(as_nats(conn@) =~= conn0.update(a as int, b as nat).update(b as int, a as nat));
        assert(as_nats(free@) =~= free0.remove(j as int).remove(0));
    }
    conn
}

} // verus!
