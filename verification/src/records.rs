//! The record filter and renderer: turns a list of lease records into the
//! forward (A) and reverse (PTR) zone bodies.  A lease is rendered exactly
//! when both its fields are present and its address starts, textually, with
//! the subnet prefix; each output applies its own ignore set; the lines keep
//! the leases' arrival order.

use vstd::prelude::*;

use crate::errors::SyncError;
use crate::text::in_list;
use crate::text::list_contains;
use crate::text::lower_of;
use crate::text::pad_to;
use crate::text::spaces;
use crate::text::starts_with;
use crate::text::str_starts_with;
use crate::text::to_lowercase;

verus! {

/// One DHCP lease record as the source hands it over; a missing or non-string
/// field stays `None` and the lease is silently skipped.
#[derive(Clone, Debug)]
pub struct Lease {
    pub hostname: Option<String>,
    pub address: Option<String>,
}

/// The exclusions of one output: lowercased hostnames and literal address
/// strings.  A lease is excluded when its lowercased hostname or its literal
/// address appears here.
#[derive(Clone, Debug)]
pub struct IgnoreSet {
    pub hostnames: Vec<String>,
    pub addresses: Vec<String>,
}

/// A lease takes part in a run iff both fields are present and the address
/// starts with the subnet prefix.  This is a textual prefix match, not a CIDR
/// test: a prefix `10.0.1` also matches `10.0.10.5`.  Callers supply a prefix
/// whose textual form ends at the intended octet boundary.
pub open spec fn lease_in_scope(l: Lease, prefix: Seq<char>) -> bool {
    &&& l.hostname is Some
    &&& l.address is Some
    &&& starts_with(l.address.unwrap()@, prefix)
}

/// The exclusion test of one ignore set.
pub open spec fn ignored_by(ig: IgnoreSet, host: Seq<char>, addr: Seq<char>) -> bool {
    in_list(ig.hostnames@, lower_of(host)) || in_list(ig.addresses@, addr)
}

/// A forward record line: the hostname padded with spaces to a minimum width
/// of 24, a tab, `IN`, tab, `A`, tab, the address, and a newline.
pub open spec fn fwd_line(host: Seq<char>, addr: Seq<char>) -> Seq<char> {
    pad_to(host, 24) + "\tIN\tA\t"@ + addr + "\n"@
}

/// The final dot-separated segment of an address: everything after the last
/// `'.'`, or the whole string when it holds none.
pub open spec fn last_octet(addr: Seq<char>) -> Seq<char> {
    match addr.index_of_last('.') {
        Some(i) => addr.subrange(i + 1, addr.len() as int),
        None => addr,
    }
}

/// A reverse record line: the last octet, tab, `IN`, tab, `PTR`, tab, the
/// fully qualified `hostname.zone.`, and a newline.
pub open spec fn rev_line(host: Seq<char>, addr: Seq<char>, zone: Seq<char>) -> Seq<char> {
    last_octet(addr) + "\tIN\tPTR\t"@ + host + "."@ + zone + ".\n"@
}

/// What one lease adds to the forward body: its line, or nothing.
pub open spec fn fwd_contrib(l: Lease, prefix: Seq<char>, ig: IgnoreSet) -> Seq<char> {
    if lease_in_scope(l, prefix) && !ignored_by(ig, l.hostname.unwrap()@, l.address.unwrap()@) {
        fwd_line(l.hostname.unwrap()@, l.address.unwrap()@)
    } else {
        Seq::empty()
    }
}

/// What one lease adds to the reverse body: its line, or nothing.
pub open spec fn rev_contrib(l: Lease, prefix: Seq<char>, zone: Seq<char>, ig: IgnoreSet) -> Seq<
    char,
> {
    if lease_in_scope(l, prefix) && !ignored_by(ig, l.hostname.unwrap()@, l.address.unwrap()@) {
        rev_line(l.hostname.unwrap()@, l.address.unwrap()@, zone)
    } else {
        Seq::empty()
    }
}

/// The forward body: each lease's contribution, in arrival order.
pub open spec fn fwd_body(ls: Seq<Lease>, prefix: Seq<char>, ig: IgnoreSet) -> Seq<char>
    decreases ls.len(),
{
    if ls.len() == 0 {
        Seq::empty()
    } else {
        fwd_body(ls.drop_last(), prefix, ig) + fwd_contrib(ls.last(), prefix, ig)
    }
}

/// The reverse body: each lease's contribution, in arrival order.
pub open spec fn rev_body(ls: Seq<Lease>, prefix: Seq<char>, zone: Seq<char>, ig: IgnoreSet) -> Seq<
    char,
>
    decreases ls.len(),
{
    if ls.len() == 0 {
        Seq::empty()
    } else {
        rev_body(ls.drop_last(), prefix, zone, ig) + rev_contrib(ls.last(), prefix, zone, ig)
    }
}

fn is_ignored(ig: &IgnoreSet, lower_host: &String, addr: &String) -> (r: bool)
    ensures
        r == (in_list(ig.hostnames@, lower_host@) || in_list(ig.addresses@, addr@)),
{
    list_contains(&ig.hostnames, lower_host) || list_contains(&ig.addresses, addr)
}

/// The last dot-separated segment of `a`, as `last_octet` describes it.
pub fn octet_of(a: &str) -> (r: String)
    ensures
        r@ == last_octet(a@),
{
    let len = a.unicode_len();
    let mut i: usize = len;
    while i > 0 && a.get_char(i - 1) != '.'
        invariant
            len == a@.len(),
            i <= len,
            forall|j: int| i <= j < len ==> a@[j] != '.',
        decreases i,
    {
        i -= 1;
    }
    proof {
        a@.index_of_last_ensures('.');
        if i > 0 {
            assert(a@[i - 1] == '.');
            match a@.index_of_last('.') {
                Some(d) => {
                    assert(d == i - 1);
                },
                None => {
                    assert(a@.contains('.'));
                },
            }
        } else {
            match a@.index_of_last('.') {
                Some(d) => {
                    assert(a@[d] != '.');
                },
                None => {
                    assert(a@.subrange(0, len as int) =~= a@);
                },
            }
        }
    }
    a.substring_char(i, len).to_owned()
}

/// Renders the two zone bodies for the leases, in arrival order.  Every lease
/// whose address starts with `prefix` and that the respective ignore set does
/// not exclude gets one line per output; a lease with a missing field is
/// silently skipped.
pub fn render(
    leases: &Vec<Lease>,
    prefix: &str,
    zone_name: &str,
    forward_ignore: &IgnoreSet,
    reverse_ignore: &IgnoreSet,
) -> (r: (String, String))
    ensures
        r.0@ == fwd_body(leases@, prefix@, *forward_ignore),
        r.1@ == rev_body(leases@, prefix@, zone_name@, *reverse_ignore),
{
    let mut fwd = String::new();
    let mut rev = String::new();
    let mut idx: usize = 0;
    while idx < leases.len()
        invariant
            idx <= leases@.len(),
            fwd@ == fwd_body(leases@.take(idx as int), prefix@, *forward_ignore),
            rev@ == rev_body(leases@.take(idx as int), prefix@, zone_name@, *reverse_ignore),
        decreases leases@.len() - idx,
    {
        let ghost fb = fwd@;
        let ghost rb = rev@;
        let ghost cur = leases@[idx as int];
        let l = &leases[idx];
        match (&l.hostname, &l.address) {
            (Some(h), Some(a)) => {
                if str_starts_with(a.as_str(), prefix) {
                    let lower = to_lowercase(h.as_str());
                    if !is_ignored(forward_ignore, &lower, a) {
                        fwd.append(h.as_str());
                        let hl = h.as_str().unicode_len();
                        let mut k = hl;
                        while k < 24
                            invariant
                                hl == h@.len(),
                                hl <= k,
                                hl < 24 ==> k <= 24,
                                hl >= 24 ==> k == hl,
                                fwd@ == fb + h@ + spaces((k - hl) as nat),
                            decreases 24 - k,
                        {
                            fwd.append(" ");
                            proof {
                                reveal_strlit(" ");
                                assert((" ")@ =~= seq![' ']);
                            }
                            k += 1;
                        }
                        fwd.append("\tIN\tA\t");
                        fwd.append(a.as_str());
                        fwd.append("\n");
                        proof {
                            if hl >= 24 {
                                assert(h@ + spaces(0) =~= h@);
                            }
                            assert(fwd@ =~= fb + fwd_contrib(cur, prefix@, *forward_ignore));
                        }
                    } else {
                        proof {
                            assert(fwd@ =~= fb + fwd_contrib(cur, prefix@, *forward_ignore));
                        }
                    }
                    if !is_ignored(reverse_ignore, &lower, a) {
                        let oct = octet_of(a.as_str());
                        rev.append(oct.as_str());
                        rev.append("\tIN\tPTR\t");
                        rev.append(h.as_str());
                        rev.append(".");
                        rev.append(zone_name);
                        rev.append(".\n");
                        proof {
                            assert(rev@ =~= rb + rev_contrib(
                                cur,
                                prefix@,
                                zone_name@,
                                *reverse_ignore,
                            ));
                        }
                    } else {
                        proof {
                            assert(rev@ =~= rb + rev_contrib(
                                cur,
                                prefix@,
                                zone_name@,
                                *reverse_ignore,
                            ));
                        }
                    }
                } else {
                    proof {
                        assert(fwd@ =~= fb + fwd_contrib(cur, prefix@, *forward_ignore));
                        assert(rev@ =~= rb + rev_contrib(cur, prefix@, zone_name@, *reverse_ignore));
                    }
                }
            },
            _ => {
                proof {
                    assert(fwd@ =~= fb + fwd_contrib(cur, prefix@, *forward_ignore));
                    assert(rev@ =~= rb + rev_contrib(cur, prefix@, zone_name@, *reverse_ignore));
                }
            },
        }
        proof {
            assert(leases@.take(idx + 1).drop_last() =~= leases@.take(idx as int));
            assert(leases@.take(idx + 1).last() == cur);
        }
        idx += 1;
    }
    proof {
        assert(leases@.take(leases@.len() as int) =~= leases@);
    }
    (fwd, rev)
}

/// `render`, guarded against an empty lease list: an empty list is a source
/// error ("no data received", never "zero hosts"), so that nothing is
/// rendered — and so no file is wiped — on a transient source glitch.
pub fn render_bodies(
    leases: &Vec<Lease>,
    prefix: &str,
    zone_name: &str,
    forward_ignore: &IgnoreSet,
    reverse_ignore: &IgnoreSet,
) -> (r: Result<(String, String), SyncError>)
    ensures
        r is Err <==> leases@.len() == 0,
        r is Err ==> r->Err_0 == SyncError::EmptyLeaseSet,
        r is Ok ==> r->Ok_0.0@ == fwd_body(leases@, prefix@, *forward_ignore),
        r is Ok ==> r->Ok_0.1@ == rev_body(leases@, prefix@, zone_name@, *reverse_ignore),
{
    if leases.len() == 0 {
        Err(SyncError::EmptyLeaseSet)
    } else {
        Ok(render(leases, prefix, zone_name, forward_ignore, reverse_ignore))
    }
}

/// A lease whose address does not start with the subnet prefix never appears
/// in either output body: removing it changes neither body.
pub proof fn lemma_out_of_scope_invisible(
    ls: Seq<Lease>,
    prefix: Seq<char>,
    zone: Seq<char>,
    fig: IgnoreSet,
    rig: IgnoreSet,
    i: int,
)
    requires
        0 <= i < ls.len(),
        !lease_in_scope(ls[i], prefix),
    ensures
        fwd_body(ls, prefix, fig) == fwd_body(ls.remove(i), prefix, fig),
        rev_body(ls, prefix, zone, rig) == rev_body(ls.remove(i), prefix, zone, rig),
    decreases ls.len(),
{
    if i == ls.len() - 1 {
        assert(ls.remove(i) =~= ls.drop_last());
        assert(fwd_body(ls, prefix, fig) =~= fwd_body(ls.drop_last(), prefix, fig));
        assert(rev_body(ls, prefix, zone, rig) =~= rev_body(ls.drop_last(), prefix, zone, rig));
    } else {
        lemma_out_of_scope_invisible(ls.drop_last(), prefix, zone, fig, rig, i);
        assert(ls.remove(i).drop_last() =~= ls.drop_last().remove(i));
        assert(ls.remove(i).last() == ls.last());
    }
}

/// Each ignore set governs only its own output: an excluded lease contributes
/// nothing there, while an in-scope lease that the other output's set does
/// not exclude still gets its line in that other output.
pub proof fn lemma_ignore_sets_independent(
    l: Lease,
    prefix: Seq<char>,
    zone: Seq<char>,
    fig: IgnoreSet,
    rig: IgnoreSet,
)
    requires
        l.hostname is Some,
        l.address is Some,
    ensures
        ignored_by(fig, l.hostname.unwrap()@, l.address.unwrap()@) ==> fwd_contrib(l, prefix, fig)
            == Seq::<char>::empty(),
        ignored_by(rig, l.hostname.unwrap()@, l.address.unwrap()@) ==> rev_contrib(
            l,
            prefix,
            zone,
            rig,
        ) == Seq::<char>::empty(),
        lease_in_scope(l, prefix) && !ignored_by(fig, l.hostname.unwrap()@, l.address.unwrap()@)
            ==> fwd_contrib(l, prefix, fig) == fwd_line(l.hostname.unwrap()@, l.address.unwrap()@),
        lease_in_scope(l, prefix) && !ignored_by(rig, l.hostname.unwrap()@, l.address.unwrap()@)
            ==> rev_contrib(l, prefix, zone, rig) == rev_line(
            l.hostname.unwrap()@,
            l.address.unwrap()@,
            zone,
        ),
{
}

/// Rendering preserves the leases' arrival order and never sorts: the body of
/// a concatenation is the concatenation of the bodies.
pub proof fn lemma_render_keeps_order(
    a: Seq<Lease>,
    b: Seq<Lease>,
    prefix: Seq<char>,
    zone: Seq<char>,
    fig: IgnoreSet,
    rig: IgnoreSet,
)
    ensures
        fwd_body(a + b, prefix, fig) == fwd_body(a, prefix, fig) + fwd_body(b, prefix, fig),
        rev_body(a + b, prefix, zone, rig) == rev_body(a, prefix, zone, rig) + rev_body(
            b,
            prefix,
            zone,
            rig,
        ),
    decreases b.len(),
{
    if b.len() == 0 {
        assert(a + b =~= a);
        assert(fwd_body(a, prefix, fig) + fwd_body(b, prefix, fig) =~= fwd_body(a, prefix, fig));
        assert(rev_body(a, prefix, zone, rig) + rev_body(b, prefix, zone, rig) =~= rev_body(
            a,
            prefix,
            zone,
            rig,
        ));
    } else {
        lemma_render_keeps_order(a, b.drop_last(), prefix, zone, fig, rig);
        assert((a + b).drop_last() =~= a + b.drop_last());
        assert((a + b).last() == b.last());
        assert(fwd_body(a, prefix, fig) + fwd_body(b, prefix, fig) =~= fwd_body(a, prefix, fig) + (
        fwd_body(b.drop_last(), prefix, fig) + fwd_contrib(b.last(), prefix, fig)));
        assert(rev_body(a, prefix, zone, rig) + rev_body(b, prefix, zone, rig) =~= rev_body(
            a,
            prefix,
            zone,
            rig,
        ) + (rev_body(b.drop_last(), prefix, zone, rig) + rev_contrib(b.last(), prefix, zone, rig)));
    }
}

} // verus!
