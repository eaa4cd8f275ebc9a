//! The peer-list argument of a node process: no arguments for a node without
//! peers, otherwise the gossip flag followed by a JSON array of
//! `{"id": .., "address": ..}` records, in dial order.

use vstd::prelude::*;
use vstd::string::*;
use crate::text::{chars_of, push_char};

verus! {

/// A node identifier together with the network address it is reachable at.
pub struct NodeAddr {
    pub id: String,
    pub address: String,
}

impl View for NodeAddr {
    type V = (Seq<char>, Seq<char>);

    open spec fn view(&self) -> (Seq<char>, Seq<char>) {
        (self.id@, self.address@)
    }
}

/// The `(id, address)` pairs of a peer list, in order.
pub open spec fn peers_view(peers: Seq<NodeAddr>) -> Seq<(Seq<char>, Seq<char>)> {
    peers.map_values(|p: NodeAddr| p@)
}

/// Lower-case hexadecimal digit for `d < 16`.
pub open spec fn hex_char(d: nat) -> char {
    if d == 0 { '0' }
    else if d == 1 { '1' }
    else if d == 2 { '2' }
    else if d == 3 { '3' }
    else if d == 4 { '4' }
    else if d == 5 { '5' }
    else if d == 6 { '6' }
    else if d == 7 { '7' }
    else if d == 8 { '8' }
    else if d == 9 { '9' }
    else if d == 10 { 'a' }
    else if d == 11 { 'b' }
    else if d == 12 { 'c' }
    else if d == 13 { 'd' }
    else if d == 14 { 'e' }
    else { 'f' }
}

/// Control characters, which JSON strings cannot hold literally.
pub open spec fn is_control(c: char) -> bool {
    (c as u32) < 0x20
}

/// How one character is written inside a JSON string.
pub open spec fn escape_char(c: char) -> Seq<char> {
    if c == '"' {
        seq!['\\', '"']
    } else if c == '\\' {
        seq!['\\', '\\']
    } else if c == '\u{8}' {
        seq!['\\', 'b']
    } else if c == '\t' {
        seq!['\\', 't']
    } else if c == '\n' {
        seq!['\\', 'n']
    } else if c == '\u{c}' {
        seq!['\\', 'f']
    } else if c == '\r' {
        seq!['\\', 'r']
    } else if is_control(c) {
        seq!['\\', 'u', '0', '0', hex_char((c as u32 / 16) as nat), hex_char((c as u32 % 16) as nat)]
    } else {
        seq![c]
    }
}

/// The body of a JSON string holding `s`.
pub open spec fn escape(s: Seq<char>) -> Seq<char>
    decreases s.len(),
{
    if s.len() == 0 {
        Seq::empty()
    } else {
        escape(s.drop_last()) + escape_char(s.last())
    }
}

/// `s` as a quoted JSON string.
pub open spec fn json_string(s: Seq<char>) -> Seq<char> {
    seq!['"'] + escape(s) + seq!['"']
}

pub open spec fn id_key() -> Seq<char> {
    seq!['{', '"', 'i', 'd', '"', ':']
}

pub open spec fn address_key() -> Seq<char> {
    seq![',', '"', 'a', 'd', 'd', 'r', 'e', 's', 's', '"', ':']
}

/// One peer as a JSON object `{"id":..,"address":..}`.
pub open spec fn peer_record(p: (Seq<char>, Seq<char>)) -> Seq<char> {
    id_key() + json_string(p.0) + address_key() + json_string(p.1) + seq!['}']
}

/// The records of the peers, separated by commas.
pub open spec fn peer_records(ps: Seq<(Seq<char>, Seq<char>)>) -> Seq<char>
    decreases ps.len(),
{
    if ps.len() == 0 {
        Seq::empty()
    } else if ps.len() == 1 {
        peer_record(ps[0])
    } else {
        peer_records(ps.drop_last()) + seq![','] + peer_record(ps.last())
    }
}

/// The JSON array of the peers' records, in the given order.
pub open spec fn peer_payload(ps: Seq<(Seq<char>, Seq<char>)>) -> Seq<char> {
    seq!['['] + peer_records(ps) + seq![']']
}

/// The flag that announces a static list of outbound gossip peers.
pub open spec fn gossip_flag() -> Seq<char> {
    "--add-gossip-static-outbound"@
}

/// The arguments a node is started with: none without peers, otherwise the
/// gossip flag and the payload.
pub open spec fn cli_args_of(ps: Seq<(Seq<char>, Seq<char>)>) -> Seq<Seq<char>> {
    if ps.len() == 0 {
        Seq::empty()
    } else {
        seq![gossip_flag(), peer_payload(ps)]
    }
}

/// A peer list that produces the payload `s`, if any does.
pub open spec fn decode_peer_payload(s: Seq<char>) -> Seq<(Seq<char>, Seq<char>)> {
    choose|ps: Seq<(Seq<char>, Seq<char>)>| ps.len() > 0 && peer_payload(ps) == s
}

proof fn lemma_strip_prefix(p: Seq<char>, u: Seq<char>, v: Seq<char>)
    requires
        p + u == p + v,
    ensures
        u == v,
{
    assert(u =~= (p + u).subrange(p.len() as int, (p + u).len() as int));
    assert(v =~= (p + v).subrange(p.len() as int, (p + v).len() as int));
}

proof fn lemma_hex_char_injective(a: nat, b: nat)
    requires
        a < 16,
        b < 16,
        hex_char(a) == hex_char(b),
    ensures
        a == b,
{
}

proof fn lemma_escape_append(a: Seq<char>, b: Seq<char>)
    ensures
        escape(a + b) == escape(a) + escape(b),
    decreases b.len(),
{
    if b.len() == 0 {
        assert(a + b =~= a);
        assert(escape(a) + escape(b) =~= escape(a));
    } else {
        lemma_escape_append(a, b.drop_last());
        assert((a + b).drop_last() =~= a + b.drop_last());
        assert((a + b).last() == b.last());
        assert(escape(a + b) =~= escape(a) + escape(b));
    }
}

proof fn lemma_escape_front(s: Seq<char>)
    requires
        s.len() > 0,
    ensures
        escape(s) == escape_char(s[0]) + escape(s.drop_first()),
{
    let a = seq![s[0]];
    assert(s =~= a + s.drop_first());
    lemma_escape_append(a, s.drop_first());
    assert(a.drop_last() =~= Seq::<char>::empty());
    assert(escape(Seq::<char>::empty()) =~= Seq::<char>::empty());
    assert(a.last() == s[0]);
    assert(escape(a) =~= escape_char(s[0]));
}

proof fn lemma_escape_char_shape(c: char)
    ensures
        escape_char(c).len() >= 1,
        escape_char(c)[0] != '"',
        escape_char(c)[0] != '\\' ==> escape_char(c) == seq![c],
{
}

proof fn lemma_escape_char_prefix_free(c: char, d: char, u: Seq<char>, v: Seq<char>)
    requires
        escape_char(c) + u == escape_char(d) + v,
    ensures
        c == d,
        u == v,
{
    let ec = escape_char(c);
    let ed = escape_char(d);
    let w = ec + u;
    assert(w[0] == ec[0]);
    assert(w[0] == ed[0]);
    if ec.len() >= 2 && ed.len() >= 2 {
        assert(w[1] == ec[1]);
        assert(w[1] == ed[1]);
    }
    if ec.len() == 6 && ed.len() == 6 {
        assert(w[4] == ec[4] && w[4] == ed[4]);
        assert(w[5] == ec[5] && w[5] == ed[5]);
        lemma_hex_char_injective((c as u32 / 16) as nat, (d as u32 / 16) as nat);
        lemma_hex_char_injective((c as u32 % 16) as nat, (d as u32 % 16) as nat);
        assert(c as u32 == d as u32);
    }
    assert(ec.len() == ed.len());
    assert(ec =~= w.subrange(0, ec.len() as int));
    assert(ed =~= w.subrange(0, ed.len() as int));
    lemma_strip_prefix(ec, u, v);
}

proof fn lemma_escape_tail(a: Seq<char>, b: Seq<char>, x: Seq<char>, y: Seq<char>)
    requires
        x.len() > 0,
        y.len() > 0,
        x[0] == '"',
        y[0] == '"',
        escape(a) + x == escape(b) + y,
    ensures
        a == b,
        x == y,
    decreases a.len(),
{
    if a.len() == 0 {
        assert(escape(a) =~= Seq::<char>::empty());
        if b.len() > 0 {
            lemma_escape_front(b);
            lemma_escape_char_shape(b[0]);
            assert((escape(b) + y)[0] == escape_char(b[0])[0]);
            assert((escape(a) + x)[0] == '"');
        }
        assert(escape(b) =~= Seq::<char>::empty());
        assert(escape(a) + x =~= x);
        assert(escape(b) + y =~= y);
        assert(a =~= b);
    } else {
        lemma_escape_front(a);
        lemma_escape_char_shape(a[0]);
        if b.len() == 0 {
            assert(escape(b) =~= Seq::<char>::empty());
            assert((escape(a) + x)[0] == escape_char(a[0])[0]);
            assert((escape(b) + y)[0] == '"');
        }
        lemma_escape_front(b);
        assert(escape(a) + x =~= escape_char(a[0]) + (escape(a.drop_first()) + x));
        assert(escape(b) + y =~= escape_char(b[0]) + (escape(b.drop_first()) + y));
        lemma_escape_char_prefix_free(a[0], b[0], escape(a.drop_first()) + x, escape(b.drop_first()) + y);
        lemma_escape_tail(a.drop_first(), b.drop_first(), x, y);
        assert(a =~= seq![a[0]] + a.drop_first());
        assert(b =~= seq![b[0]] + b.drop_first());
    }
}

proof fn lemma_json_string_tail(a: Seq<char>, b: Seq<char>, x: Seq<char>, y: Seq<char>)
    requires
        json_string(a) + x == json_string(b) + y,
    ensures
        a == b,
        x == y,
{
    let q = seq!['"'];
    assert(json_string(a) + x =~= q + (escape(a) + (q + x)));
    assert(json_string(b) + y =~= q + (escape(b) + (q + y)));
    lemma_strip_prefix(q, escape(a) + (q + x), escape(b) + (q + y));
    lemma_escape_tail(a, b, q + x, q + y);
    lemma_strip_prefix(q, x, y);
}

proof fn lemma_record_tail(
    p: (Seq<char>, Seq<char>),
    q: (Seq<char>, Seq<char>),
    x: Seq<char>,
    y: Seq<char>,
)
    requires
        peer_record(p) + x == peer_record(q) + y,
    ensures
        p == q,
        x == y,
{
    let close = seq!['}'];
    let rx = address_key() + (json_string(p.1) + (close + x));
    let ry = address_key() + (json_string(q.1) + (close + y));
    assert(peer_record(p) + x =~= id_key() + (json_string(p.0) + rx));
    assert(peer_record(q) + y =~= id_key() + (json_string(q.0) + ry));
    lemma_strip_prefix(id_key(), json_string(p.0) + rx, json_string(q.0) + ry);
    lemma_json_string_tail(p.0, q.0, rx, ry);
    lemma_strip_prefix(address_key(), json_string(p.1) + (close + x), json_string(q.1) + (close + y));
    lemma_json_string_tail(p.1, q.1, close + x, close + y);
    lemma_strip_prefix(close, x, y);
}

proof fn lemma_records_front(ps: Seq<(Seq<char>, Seq<char>)>)
    requires
        ps.len() >= 2,
    ensures
        peer_records(ps) == peer_record(ps[0]) + seq![','] + peer_records(ps.drop_first()),
    decreases ps.len(),
{
    let t = ps.drop_first();
    if ps.len() == 2 {
        assert(ps.drop_last().len() == 1);
        assert(ps.drop_last()[0] == ps[0]);
        assert(t.len() == 1);
        assert(t[0] == ps.last());
        assert(peer_records(ps.drop_last()) == peer_record(ps[0]));
        assert(peer_records(t) == peer_record(ps.last()));
        assert(peer_records(ps) == peer_records(ps.drop_last()) + seq![','] + peer_record(ps.last()));
    } else {
        lemma_records_front(ps.drop_last());
        assert(ps.drop_last().drop_first() =~= t.drop_last());
        assert(t.last() == ps.last());
        assert(ps.drop_last()[0] == ps[0]);
        assert(peer_records(ps) =~= peer_record(ps[0]) + seq![','] + peer_records(t));
    }
}

proof fn lemma_records_tail(ps: Seq<(Seq<char>, Seq<char>)>, qs: Seq<(Seq<char>, Seq<char>)>)
    requires
        ps.len() > 0,
        qs.len() > 0,
        peer_records(ps) + seq![']'] == peer_records(qs) + seq![']'],
    ensures
        ps == qs,
    decreases ps.len(),
{
    let end = seq![']'];
    let comma = seq![','];
    let rp = if ps.len() == 1 { end } else { comma + (peer_records(ps.drop_first()) + end) };
    let rq = if qs.len() == 1 { end } else { comma + (peer_records(qs.drop_first()) + end) };
    if ps.len() >= 2 {
        lemma_records_front(ps);
    }
    if qs.len() >= 2 {
        lemma_records_front(qs);
    }
    assert(peer_records(ps) + end =~= peer_record(ps[0]) + rp);
    assert(peer_records(qs) + end =~= peer_record(qs[0]) + rq);
    lemma_record_tail(ps[0], qs[0], rp, rq);
    assert(rp[0] == rq[0]);
    if ps.len() >= 2 {
        assert(qs.len() >= 2);
        lemma_strip_prefix(comma, peer_records(ps.drop_first()) + end, peer_records(qs.drop_first()) + end);
        lemma_records_tail(ps.drop_first(), qs.drop_first());
        assert(ps =~= seq![ps[0]] + ps.drop_first());
        assert(qs =~= seq![qs[0]] + qs.drop_first());
    } else {
        assert(qs.len() == 1);
        assert(ps =~= qs);
    }
}

/// Two non-empty peer lists with the same payload are the same list, in the
/// same order.
pub proof fn lemma_peer_payload_injective(
    ps: Seq<(Seq<char>, Seq<char>)>,
    qs: Seq<(Seq<char>, Seq<char>)>,
)
    requires
        ps.len() > 0,
        qs.len() > 0,
        peer_payload(ps) == peer_payload(qs),
    ensures
        ps == qs,
{
    let open = seq!['['];
    let end = seq![']'];
    assert(peer_payload(ps) =~= open + (peer_records(ps) + end));
    assert(peer_payload(qs) =~= open + (peer_records(qs) + end));
    lemma_strip_prefix(open, peer_records(ps) + end, peer_records(qs) + end);
    lemma_records_tail(ps, qs);
}

/// Decoding the payload of a non-empty peer list gives back that list, in
/// its order; an empty list gives no arguments at all.
pub proof fn lemma_peer_args_round_trip(ps: Seq<(Seq<char>, Seq<char>)>)
    ensures
        ps.len() > 0 ==> decode_peer_payload(peer_payload(ps)) == ps,
        ps.len() > 0 ==> cli_args_of(ps) == seq![gossip_flag(), peer_payload(ps)],
        ps.len() == 0 ==> cli_args_of(ps).len() == 0,
{
    if ps.len() > 0 {
        let d = decode_peer_payload(peer_payload(ps));
        assert(ps.len() > 0 && peer_payload(ps) == peer_payload(ps));
        lemma_peer_payload_injective(d, ps);
    }
}

fn hex_digit(d: u32) -> (c: char)
    requires
        d < 16,
    ensures
        c == hex_char(d as nat),
{
    if d == 0 { '0' }
    else if d == 1 { '1' }
    else if d == 2 { '2' }
    else if d == 3 { '3' }
    else if d == 4 { '4' }
    else if d == 5 { '5' }
    else if d == 6 { '6' }
    else if d == 7 { '7' }
    else if d == 8 { '8' }
    else if d == 9 { '9' }
    else if d == 10 { 'a' }
    else if d == 11 { 'b' }
    else if d == 12 { 'c' }
    else if d == 13 { 'd' }
    else if d == 14 { 'e' }
    else { 'f' }
}

fn push_escaped(out: &mut String, c: char)
    ensures
        final(out)@ == old(out)@ + escape_char(c),
{
    let ghost start = out@;
    if c == '"' {
        push_char(out, '\\');
        push_char(out, '"');
    } else if c == '\\' {
        push_char(out, '\\');
        push_char(out, '\\');
    } else if c == '\u{8}' {
        push_char(out, '\\');
        push_char(out, 'b');
    } else if c == '\t' {
        push_char(out, '\\');
        push_char(out, 't');
    } else if c == '\n' {
        push_char(out, '\\');
        push_char(out, 'n');
    } else if c == '\u{c}' {
        push_char(out, '\\');
        push_char(out, 'f');
    } else if c == '\r' {
        push_char(out, '\\');
        push_char(out, 'r');
    } else if (c as u32) < 0x20 {
        let v = c as u32;
        push_char(out, '\\');
        push_char(out, 'u');
        push_char(out, '0');
        push_char(out, '0');
        push_char(out, hex_digit(v / 16));
        push_char(out, hex_digit(v % 16));
    } else {
        push_char(out, c);
    }
    assert(out@ =~= start + escape_char(c));
}

fn push_json_string(out: &mut String, s: &String)
    ensures
        final(out)@ == old(out)@ + json_string(s@),
{
    let cs = chars_of(s.as_str());
    push_char(out, '"');
    let ghost start = out@;
    assert(s@.take(0) =~= Seq::<char>::empty());
    let mut i: usize = 0;
    while i < cs.len()
        invariant
            i <= cs@.len(),
            cs@ == s@,
            out@ == start + escape(s@.take(i as int)),
        decreases cs@.len() - i,
    {
        let c = cs[i];
        push_escaped(out, c);
        proof {
            let t = s@.take(i + 1);
            assert(t.drop_last() =~= s@.take(i as int));
            assert(t.last() == c);
        }
        i += 1;
    }
    assert(s@.take(i as int) =~= s@);
    push_char(out, '"');
    assert(out@ =~= old(out)@ + json_string(s@));
}

fn push_peer_record(out: &mut String, p: &NodeAddr)
    ensures
        final(out)@ == old(out)@ + peer_record(p@),
{
    let ghost start = out@;
    out.append("{\"id\":");
    push_json_string(out, &p.id);
    out.append(",\"address\":");
    push_json_string(out, &p.address);
    push_char(out, '}');
    proof {
        reveal_strlit("{\"id\":");
        reveal_strlit(",\"address\":");
        assert("{\"id\":"@ =~= id_key());
        assert(",\"address\":"@ =~= address_key());
    }
    assert(out@ =~= start + peer_record(p@));
}

/// Encodes a non-empty peer list as the JSON payload of the gossip flag.
pub fn encode_peers(peers: &Vec<NodeAddr>) -> (r: String)
    ensures
        r@ == peer_payload(peers_view(peers@)),
{
    let mut out = String::new();
    push_char(&mut out, '[');
    let mut i: usize = 0;
    assert(peers_view(peers@).take(0) =~= Seq::<(Seq<char>, Seq<char>)>::empty());
    while i < peers.len()
        invariant
            i <= peers@.len(),
            out@ == seq!['['] + peer_records(peers_view(peers@).take(i as int)),
        decreases peers@.len() - i,
    {
        let ghost before = out@;
        if i > 0 {
            push_char(&mut out, ',');
        }
        push_peer_record(&mut out, &peers[i]);
        proof {
            let t = peers_view(peers@).take(i + 1);
            assert(t.drop_last() =~= peers_view(peers@).take(i as int));
            assert(t.last() == peers@[i as int]@);
            if i == 0 {
                assert(t.len() == 1);
            }
        }
        assert(out@ =~= seq!['['] + peer_records(peers_view(peers@).take(i + 1)));
        i += 1;
    }
    assert(peers_view(peers@).take(i as int) =~= peers_view(peers@));
    push_char(&mut out, ']');
    assert(out@ =~= peer_payload(peers_view(peers@)));
    out
}

/// The start-up arguments for a node with the given peers: none for an empty
/// list, else the gossip flag followed by the encoded list.
pub fn get_cli_args(peers: Vec<NodeAddr>) -> (r: Vec<String>)
    ensures
        r@.map_values(|a: String| a@) == cli_args_of(peers_view(peers@)),
{
    if peers.len() == 0 {
        let r: Vec<String> = Vec::new();
        assert(r@.map_values(|a: String| a@) =~= cli_args_of(peers_view(peers@)));
        r
    } else {
        let flag = String::from_str("--add-gossip-static-outbound");
        let payload = encode_peers(&peers);
        let r = vec![flag, payload];
        assert(r@.map_values(|a: String| a@) =~= cli_args_of(peers_view(peers@)));
        r
    }
}

} // verus!
