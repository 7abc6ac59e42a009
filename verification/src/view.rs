//! The view function: one skeleton of HTML fragments for both environments.
//!
//! The fragment structure is a function of the route tag and the query alone;
//! the two suspending leaves are the only places where the environments
//! differ.  The prepared-state leaf stores the awaited producer result on the
//! server and reads it back by key on the client; the client-only leaf shows
//! a placeholder on the server and the live result, or the pending fallback,
//! on the client.
//!
//! A prepared-state key is derived from the leaf's position in the render
//! tree alone — the decimal child indices on the path from the root, joined
//! by dots — so the server and the client compute the same key for the same
//! logical leaf.

use vstd::prelude::*;

use crate::codec::push_char;
use crate::frag_views;
use crate::registry::{entry_views, lookup, Registry};
use crate::route::{route_name, spec_route_name, RouteTag};

verus! {

/// The decimal digits of `n`, most significant first.
pub open spec fn spec_digits(n: nat) -> Seq<char>
    decreases n,
{
    if n < 10 {
        seq![((48 + n) as u8) as char]
    } else {
        spec_digits(n / 10).push(((48 + n % 10) as u8) as char)
    }
}

/// Renders `n` in decimal.
pub fn digits(n: usize) -> (s: String)
    ensures
        s@ == spec_digits(n as nat),
    decreases n,
{
    if n < 10 {
        let mut s = String::new();
        push_char(&mut s, (48 + (n as u8)) as char);
        proof {
            assert(s@ =~= spec_digits(n as nat));
        }
        s
    } else {
        let mut s = digits(n / 10);
        push_char(&mut s, (48 + ((n % 10) as u8)) as char);
        s
    }
}

/// The key of a leaf at tree position `p`: its child indices in decimal,
/// joined by dots.
pub open spec fn spec_position_key(p: Seq<usize>) -> Seq<char>
    decreases p.len(),
{
    if p.len() == 0 {
        Seq::empty()
    } else if p.len() == 1 {
        spec_digits(p[0] as nat)
    } else {
        spec_position_key(p.drop_last()) + seq!['.'] + spec_digits(p.last() as nat)
    }
}

/// Derives the prepared-state key for the leaf at tree position `p`.
pub fn position_key(p: &Vec<usize>) -> (s: String)
    ensures
        s@ == spec_position_key(p@),
{
    let mut s = String::new();
    let mut i: usize = 0;
    proof {
        assert(p@.take(0) =~= Seq::<usize>::empty());
        assert(s@ =~= spec_position_key(p@.take(0)));
    }
    while i < p.len()
        invariant
            i <= p@.len(),
            s@ == spec_position_key(p@.take(i as int)),
        decreases p@.len() - i,
    {
        let ghost sold = s@;
        if i > 0 {
            push_char(&mut s, '.');
            proof {
                assert(s@ =~= sold + seq!['.']);
            }
        }
        let d = digits(p[i]);
        s.append(d.as_str());
        proof {
            assert(p@.take(i as int + 1).drop_last() =~= p@.take(i as int));
            assert(p@.take(i as int + 1).last() == p@[i as int]);
            if i == 0 {
                assert(s@ =~= spec_position_key(p@.take(1)));
            }
        }
        i = i + 1;
    }
    proof {
        assert(p@.take(p@.len() as int) =~= p@);
    }
    s
}

/// The prepared-state leaf's position in the render tree: first child of the
/// root's third child.
pub open spec fn spec_prepared_ip_key() -> Seq<char> {
    spec_position_key(seq![2usize, 0usize])
}

/// The key under which the server stores the prepared IP address.
pub fn prepared_ip_key() -> (s: String)
    ensures
        s@ == spec_prepared_ip_key(),
{
    let mut p: Vec<usize> = Vec::new();
    p.push(2);
    p.push(0);
    proof {
        assert(p@ =~= seq![2usize, 0usize]);
    }
    position_key(&p)
}

/// What the suspending leaves show while their value is pending.
pub open spec fn spec_fallback() -> Seq<char> {
    "loading..."@
}

/// What the server emits for the client-only leaf.
pub open spec fn spec_server_only_leaf() -> Seq<char> {
    "this value was constructed during server-side rendering"@
}

/// The client-only leaf on the client: the live result once fetched, the
/// fallback before.
pub open spec fn spec_client_only_leaf(live: Option<Seq<char>>) -> Seq<char> {
    match live {
        Some(l) => l,
        None => spec_fallback(),
    }
}

/// The prepared-state leaf on the client: the registry value under the
/// derived key when present, otherwise the live producer as the client-only
/// policy runs it.
pub open spec fn spec_prepared_leaf(
    reg: Seq<(Seq<char>, Seq<char>)>,
    live: Option<Seq<char>>,
) -> Seq<char> {
    match lookup(reg, spec_prepared_ip_key()) {
        Some(v) => v,
        None => spec_client_only_leaf(live),
    }
}

/// The query pairs as the view shows them, in order.
pub open spec fn spec_query_text(q: Seq<(Seq<char>, Seq<char>)>) -> Seq<char>
    decreases q.len(),
{
    if q.len() == 0 {
        Seq::empty()
    } else {
        spec_query_text(q.drop_last()) + q.last().0 + "="@ + q.last().1 + ";"@
    }
}

/// Renders the query pairs.
pub fn query_text(q: &Vec<(String, String)>) -> (s: String)
    ensures
        s@ == spec_query_text(entry_views(q@)),
{
    let mut s = String::new();
    let mut i: usize = 0;
    proof {
        assert(entry_views(q@).take(0) =~= Seq::<(Seq<char>, Seq<char>)>::empty());
        assert(s@ =~= spec_query_text(entry_views(q@).take(0)));
    }
    while i < q.len()
        invariant
            i <= q@.len(),
            s@ == spec_query_text(entry_views(q@).take(i as int)),
        decreases q@.len() - i,
    {
        s.append(q[i].0.as_str());
        s.append("=");
        s.append(q[i].1.as_str());
        s.append(";");
        proof {
            let qv = entry_views(q@);
            crate::registry::lemma_entry_views_index(q@, i as int);
            assert(qv.take(i as int + 1).drop_last() =~= qv.take(i as int));
            assert(qv.take(i as int + 1).last() == qv[i as int]);
        }
        i = i + 1;
    }
    proof {
        assert(entry_views(q@).take(entry_views(q@).len() as int) =~= entry_views(q@));
    }
    s
}

/// The environment-invariant fragment skeleton: only the two leaf texts vary
/// between server and client.
pub open spec fn spec_view_frags(
    tag: RouteTag,
    q: Seq<(Seq<char>, Seq<char>)>,
    ip_leaf: Seq<char>,
    client_leaf: Seq<char>,
) -> Seq<Seq<char>> {
    seq![
        "<div><p>You are currently viewing route: <code>"@,
        spec_route_name(tag),
        "</code></p><p>query: "@,
        spec_query_text(q),
        "</p><p>When the server prepared this page, it had IP address: "@,
        ip_leaf,
        "</p><p>When your browser displays this page, it has IP address: "@,
        client_leaf,
        "</p><p>Clicky counter: 0<button>+1</button></p></div>"@,
    ]
}

/// Builds the nine fragments of the skeleton around the two leaf texts.
fn build_frags(
    tag: RouteTag,
    q: &Vec<(String, String)>,
    ip_leaf: String,
    client_leaf: String,
) -> (frags: Vec<String>)
    ensures
        frag_views(frags@) == spec_view_frags(tag, entry_views(q@), ip_leaf@, client_leaf@),
{
    let mut frags: Vec<String> = Vec::new();
    frags.push(String::from_str("<div><p>You are currently viewing route: <code>"));
    frags.push(route_name(tag));
    frags.push(String::from_str("</code></p><p>query: "));
    frags.push(query_text(q));
    frags.push(
        String::from_str("</p><p>When the server prepared this page, it had IP address: "),
    );
    frags.push(ip_leaf);
    frags.push(
        String::from_str("</p><p>When your browser displays this page, it has IP address: "),
    );
    frags.push(client_leaf);
    frags.push(String::from_str("</p><p>Clicky counter: 0<button>+1</button></p></div>"));
    proof {
        assert(frag_views(frags@) =~= spec_view_frags(
            tag,
            entry_views(q@),
            frags@[5]@,
            frags@[7]@,
        ));
    }
    frags
}

/// The server render of the view: stores the awaited producer result in this
/// render's registry under the position-derived key, and emits the skeleton
/// with that result in the prepared-state leaf and the placeholder in the
/// client-only leaf.
pub fn server_view(
    tag: RouteTag,
    q: &Vec<(String, String)>,
    producer_value: &String,
    reg: &mut Registry,
) -> (frags: Vec<String>)
    requires
        old(reg).wf(),
        lookup(old(reg)@, spec_prepared_ip_key()) is None,
    ensures
        final(reg).wf(),
        final(reg)@ == old(reg)@.push((spec_prepared_ip_key(), producer_value@)),
        frag_views(frags@) == spec_view_frags(
            tag,
            entry_views(q@),
            producer_value@,
            spec_server_only_leaf(),
        ),
{
    let key = prepared_ip_key();
    let stored = producer_value.clone();
    let put_result = reg.put(key, stored);
    proof {
        assert(put_result is Ok);
    }
    build_frags(
        tag,
        q,
        producer_value.clone(),
        String::from_str("this value was constructed during server-side rendering"),
    )
}

/// The client render of the view: reads the prepared-state leaf from the
/// registry under the same derived key, without re-running the producer when
/// the entry is present.
pub fn client_view(
    tag: RouteTag,
    q: &Vec<(String, String)>,
    reg: &Registry,
    live: Option<&String>,
) -> (frags: Vec<String>)
    ensures
        frag_views(frags@) == spec_view_frags(
            tag,
            entry_views(q@),
            spec_prepared_leaf(reg@, spec_live_view(live)),
            spec_client_only_leaf(spec_live_view(live)),
        ),
{
    let client_leaf = match live {
        Some(l) => l.clone(),
        None => String::from_str("loading..."),
    };
    let key = prepared_ip_key();
    let ip_leaf = match reg.get(key.as_str()) {
        Some(v) => v,
        None => client_leaf.clone(),
    };
    build_frags(tag, q, ip_leaf, client_leaf)
}

/// The view of an optional live value.
pub open spec fn spec_live_view(live: Option<&String>) -> Option<Seq<char>> {
    match live {
        Some(l) => Some(l@),
        None => None,
    }
}

/// View determinism: the emitted fragment sequence is a function of the
/// route tag, the query and the two leaf texts alone, so two renders with
/// identical inputs emit byte-identical fragment sequences.
pub proof fn lemma_view_determinism(
    tag: RouteTag,
    q1: Seq<(Seq<char>, Seq<char>)>,
    q2: Seq<(Seq<char>, Seq<char>)>,
    ip1: Seq<char>,
    ip2: Seq<char>,
    cl1: Seq<char>,
    cl2: Seq<char>,
)
    requires
        q1 == q2,
        ip1 == ip2,
        cl1 == cl2,
    ensures
        spec_view_frags(tag, q1, ip1, cl1) == spec_view_frags(tag, q2, ip2, cl2),
{
}

/// Structural environment-invariance: for any leaf contents, the server and
/// client renders have the same shape, and agree everywhere but at the two
/// suspending leaves.
pub proof fn lemma_structure_invariant(
    tag: RouteTag,
    q: Seq<(Seq<char>, Seq<char>)>,
    server_ip: Seq<char>,
    client_ip: Seq<char>,
    server_cl: Seq<char>,
    client_cl: Seq<char>,
)
    ensures
        spec_view_frags(tag, q, server_ip, server_cl).len() == spec_view_frags(
            tag,
            q,
            client_ip,
            client_cl,
        ).len(),
        forall|i: int|
            0 <= i < spec_view_frags(tag, q, server_ip, server_cl).len() && i != 5 && i != 7
                ==> spec_view_frags(tag, q, server_ip, server_cl)[i] == spec_view_frags(
                tag,
                q,
                client_ip,
                client_cl,
            )[i],
{
}

} // verus!
