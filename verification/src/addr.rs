//! Socket addresses as the resolver reports them, and the canonical form
//! (strictly ascending, duplicate-free) that a host's per-family address
//! lists take once all resolution attempts for the host are exhausted.

use vstd::prelude::*;

verus! {

/// One socket address within a single family: the numeric address and the
/// service port. An IPv4 address uses only the low 32 bits of `ip`.
#[derive(Clone, Copy, Debug, PartialEq, Eq, Structural)]
pub struct Addr {
    pub ip: u128,
    pub port: u16,
}

/// Total order on addresses of one family: by numeric address, then by port.
pub open spec fn addr_lt(a: Addr, b: Addr) -> bool {
    a.ip < b.ip || (a.ip == b.ip && a.port < b.port)
}

/// A list is strictly ascending: sorted, with no duplicate entries.
pub open spec fn strictly_sorted(s: Seq<Addr>) -> bool {
    forall|i: int, j: int| 0 <= i < j < s.len() ==> addr_lt(s[i], s[j])
}

/// An address as one resolution attempt returned it, tagged with its family.
#[derive(Clone, Copy, Debug, PartialEq, Eq, Structural)]
pub enum ResolvedAddr {
    V4(Addr),
    V6(Addr),
}

/// The IPv4 members of a lookup answer, in answer order.
pub open spec fn v4_part(s: Seq<ResolvedAddr>) -> Seq<Addr>
    decreases s.len(),
{
    if s.len() == 0 {
        Seq::empty()
    } else {
        v4_part(s.drop_last()) + (match s.last() {
            ResolvedAddr::V4(a) => seq![a],
            ResolvedAddr::V6(_) => Seq::empty(),
        })
    }
}

/// The IPv6 members of a lookup answer, in answer order.
pub open spec fn v6_part(s: Seq<ResolvedAddr>) -> Seq<Addr>
    decreases s.len(),
{
    if s.len() == 0 {
        Seq::empty()
    } else {
        v6_part(s.drop_last()) + (match s.last() {
            ResolvedAddr::V4(_) => Seq::empty(),
            ResolvedAddr::V6(a) => seq![a],
        })
    }
}

/// Extending an answer prefix by one entry extends exactly the part of the
/// entry's own family.
pub proof fn lemma_parts_take_step(s: Seq<ResolvedAddr>, i: int)
    requires
        0 <= i < s.len(),
    ensures
        v4_part(s.take(i + 1)) == v4_part(s.take(i)) + (match s[i] {
            ResolvedAddr::V4(a) => seq![a],
            ResolvedAddr::V6(_) => Seq::empty(),
        }),
        v6_part(s.take(i + 1)) == v6_part(s.take(i)) + (match s[i] {
            ResolvedAddr::V4(_) => Seq::empty(),
            ResolvedAddr::V6(a) => seq![a],
        }),
{
    assert(s.take(i + 1).drop_last() =~= s.take(i));
    assert(s.take(i + 1).last() == s[i]);
}

/// Exec comparison agreeing with `addr_lt`.
fn addr_before(a: &Addr, b: &Addr) -> (r: bool)
    ensures
        r == addr_lt(*a, *b),
{
    a.ip < b.ip || (a.ip == b.ip && a.port < b.port)
}

/// The canonicalization pass a host's list undergoes exactly once, after the
/// last resolution attempt: sort ascending and remove duplicates. The result
/// is strictly sorted and holds exactly the addresses the input held.
pub fn canonicalize(v: &mut Vec<Addr>)
    ensures
        strictly_sorted(final(v)@),
        forall|a: Addr| final(v)@.contains(a) <==> old(v)@.contains(a),
{
    let mut out: Vec<Addr> = Vec::new();
    let mut i: usize = 0;
    while i < v.len()
        invariant
            i <= v@.len(),
            strictly_sorted(out@),
            forall|a: Addr| out@.contains(a) <==> v@.take(i as int).contains(a),
        decreases v@.len() - i,
    {
        let x = v[i];
        let ghost pre = out@;
        let mut j: usize = 0;
        while j < out.len() && addr_before(&out[j], &x)
            invariant
                j <= out@.len(),
                out@ == pre,
                strictly_sorted(out@),
                forall|k: int| 0 <= k < j ==> addr_lt(out@[k], x),
            decreases out@.len() - j,
        {
            j += 1;
        }
        proof {
            assert(v@.take(i + 1).drop_last() =~= v@.take(i as int));
            assert(v@.take(i + 1).last() == v@[i as int]);
            assert forall|a: Addr| #[trigger] v@.take(i + 1).contains(a)
                <==> (v@.take(i as int).contains(a) || a == x) by {
                if v@.take(i + 1).contains(a) {
                    let k = choose|k: int| 0 <= k < i + 1 && #[trigger] v@.take(i + 1)[k] == a;
                    if k < i {
                        assert(v@.take(i as int)[k] == a);
                    }
                }
                if v@.take(i as int).contains(a) {
                    let k = choose|k: int| 0 <= k < i && #[trigger] v@.take(i as int)[k] == a;
                    assert(v@.take(i + 1)[k] == a);
                }
                if a == x {
                    assert(v@.take(i + 1)[i as int] == a);
                }
            }
        }
        if j == out.len() {
            out.push(x);
            proof {
                assert forall|a: Addr| #[trigger] out@.contains(a)
                    <==> (pre.contains(a) || a == x) by {
                    if out@.contains(a) {
                        let k = choose|k: int| 0 <= k < out@.len() && #[trigger] out@[k] == a;
                        if k < pre.len() {
                            assert(pre[k] == a);
                        }
                    }
                    if pre.contains(a) {
                        let k = choose|k: int| 0 <= k < pre.len() && #[trigger] pre[k] == a;
                        assert(out@[k] == a);
                    }
                    assert(out@[pre.len() as int] == x);
                }
            }
        } else if out[j].ip == x.ip && out[j].port == x.port {
            proof {
                assert(out@[j as int] == x);
                assert(out@.contains(x));
            }
        } else {
            proof {
                assert(addr_lt(x, pre[j as int]));
            }
            out.insert(j, x);
            proof {
                assert(out@ == pre.insert(j as int, x));
                assert forall|p: int, q: int| 0 <= p < q < out@.len()
                    implies addr_lt(out@[p], out@[q]) by {
                    let jj = j as int;
                    if p < jj && q < jj {
                        assert(out@[p] == pre[p] && out@[q] == pre[q]);
                    } else if p < jj && q == jj {
                        assert(out@[p] == pre[p]);
                    } else if p < jj && q > jj {
                        assert(out@[p] == pre[p] && out@[q] == pre[q - 1]);
                        if p < q - 1 {
                        } else {
                            assert(p == q - 1 && p == jj - 1);
                            assert(addr_lt(pre[p], x) && addr_lt(x, pre[jj]));
                        }
                    } else if p == jj && q > jj {
                        assert(out@[q] == pre[q - 1]);
                        if q - 1 == jj {
                        } else {
                            assert(addr_lt(pre[jj], pre[q - 1]));
                        }
                    } else {
                        assert(out@[p] == pre[p - 1] && out@[q] == pre[q - 1]);
                    }
                }
                assert forall|a: Addr| #[trigger] out@.contains(a)
                    <==> (pre.contains(a) || a == x) by {
                    if out@.contains(a) {
                        let k = choose|k: int| 0 <= k < out@.len() && #[trigger] out@[k] == a;
                        if k < j {
                            assert(pre[k] == a);
                        } else if k > j {
                            assert(pre[k - 1] == a);
                        }
                    }
                    if pre.contains(a) {
                        let k = choose|k: int| 0 <= k < pre.len() && #[trigger] pre[k] == a;
                        if k < j {
                            assert(out@[k] == a);
                        } else {
                            assert(out@[k + 1] == a);
                        }
                    }
                    assert(out@[j as int] == x);
                }
            }
        }
        i += 1;
    }
    proof {
        assert(v@.take(v@.len() as int) =~= v@);
    }
    *v = out;
}

/// A strictly sorted list is determined by the set of addresses it holds:
/// two canonical lists with the same members are the same list.
pub proof fn lemma_sorted_unique(a: Seq<Addr>, b: Seq<Addr>)
    requires
        strictly_sorted(a),
        strictly_sorted(b),
        forall|x: Addr| a.contains(x) <==> b.contains(x),
    ensures
        a =~= b,
    decreases a.len(),
{
    if a.len() == 0 {
        if b.len() > 0 {
            assert(b.contains(b[0]));
        }
    } else {
        assert(a.contains(a[0]));
        if b.len() == 0 {
            assert(!b.contains(a[0]));
        }
        let j = choose|j: int| 0 <= j < b.len() && #[trigger] b[j] == a[0];
        let i = choose|i: int| 0 <= i < a.len() && #[trigger] a[i] == b[0];
        assert(b.contains(b[0]));
        assert(a.contains(b[0]));
        if j > 0 {
            assert(addr_lt(b[0], b[j]));
            if i > 0 {
                assert(addr_lt(a[0], a[i]));
            }
        }
        assert(a[0] == b[0]);
        let at = a.drop_first();
        let bt = b.drop_first();
        assert forall|x: Addr| at.contains(x) <==> bt.contains(x) by {
            lemma_tail_members(a, x);
            lemma_tail_members(b, x);
        }
        assert forall|p: int, q: int| 0 <= p < q < at.len()
            implies addr_lt(at[p], at[q]) by {
            assert(at[p] == a[p + 1] && at[q] == a[q + 1]);
        }
        assert forall|p: int, q: int| 0 <= p < q < bt.len()
            implies addr_lt(bt[p], bt[q]) by {
            assert(bt[p] == b[p + 1] && bt[q] == b[q + 1]);
        }
        lemma_sorted_unique(at, bt);
        assert forall|k: int| 0 <= k < a.len() implies a[k] == b[k] by {
            if k > 0 {
                assert(a[k] == at[k - 1] && b[k] == bt[k - 1]);
            }
        }
    }
}

/// In a strictly sorted list the head occurs nowhere else, so the tail's
/// members are exactly the members other than the head.
proof fn lemma_tail_members(s: Seq<Addr>, x: Addr)
    requires
        strictly_sorted(s),
        s.len() > 0,
    ensures
        s.drop_first().contains(x) <==> (s.contains(x) && x != s[0]),
{
    let t = s.drop_first();
    if t.contains(x) {
        let k = choose|k: int| 0 <= k < t.len() && #[trigger] t[k] == x;
        assert(s[k + 1] == x);
        assert(s.contains(x));
        assert(addr_lt(s[0], s[k + 1]));
    }
    if s.contains(x) && x != s[0] {
        let k = choose|k: int| 0 <= k < s.len() && #[trigger] s[k] == x;
        assert(k > 0);
        assert(t[k - 1] == x);
    }
}

/// Membership in a concatenation is membership in either part.
pub proof fn lemma_concat_contains(a: Seq<Addr>, b: Seq<Addr>, x: Addr)
    ensures
        (a + b).contains(x) <==> (a.contains(x) || b.contains(x)),
{
    if (a + b).contains(x) {
        let k = choose|k: int| 0 <= k < (a + b).len() && #[trigger] (a + b)[k] == x;
        if k < a.len() {
            assert(a[k] == x);
        } else {
            assert(b[k - a.len()] == x);
        }
    }
    if a.contains(x) {
        let k = choose|k: int| 0 <= k < a.len() && #[trigger] a[k] == x;
        assert((a + b)[k] == x);
    }
    if b.contains(x) {
        let k = choose|k: int| 0 <= k < b.len() && #[trigger] b[k] == x;
        assert((a + b)[k + a.len()] == x);
    }
}

/// Idempotence of resolution up to answer stability: when a further round of
/// answers (`extra`) brings no address the canonical list `v` does not already
/// hold, re-canonicalizing the combined list yields `v` again. Here `w` is
/// whatever the second canonicalization pass produced.
pub proof fn lemma_recanonicalize_stable(v: Seq<Addr>, extra: Seq<Addr>, w: Seq<Addr>)
    requires
        strictly_sorted(v),
        strictly_sorted(w),
        forall|x: Addr| extra.contains(x) ==> v.contains(x),
        forall|x: Addr| w.contains(x) <==> (v + extra).contains(x),
    ensures
        w =~= v,
{
    assert forall|x: Addr| w.contains(x) <==> v.contains(x) by {
        lemma_concat_contains(v, extra, x);
    }
    lemma_sorted_unique(w, v);
}

} // verus!
