//! Zero-allocation readers for the few DNS header and question fields that the
//! hot path needs, and the transaction-id patch applied to cached answers.

use vstd::prelude::*;
use vstd::utf8::{decode_utf8, valid_utf8};

verus! {

/// Big-endian 16-bit value at `i`.
pub open spec fn be16(p: Seq<u8>, i: int) -> int {
    p[i] as int * 256 + p[i + 1] as int
}

/// Big-endian 32-bit value at `i`.
pub open spec fn be32(p: Seq<u8>, i: int) -> int {
    be16(p, i) * 65536 + be16(p, i + 2)
}

/// ASCII lowercase of one byte; other bytes are kept.
pub open spec fn lower_byte(b: u8) -> u8 {
    if 65 <= b <= 90 {
        (b + 32) as u8
    } else {
        b
    }
}

pub open spec fn lower_bytes(s: Seq<u8>) -> Seq<u8> {
    s.map_values(|b: u8| lower_byte(b))
}

/// Walks a (possibly compressed) domain name starting at `cur` with a budget
/// of `jumps` for compression pointers (the walk fails on the pointer that
/// exhausts it). On success yields the lowercased name with a `.` in front of
/// every label, and the offset just after the name as it stands at the start
/// (after the first pointer, if one was taken).
pub open spec fn name_walk(p: Seq<u8>, cur: int, jumps: nat) -> Option<(Seq<u8>, int)>
    decreases jumps, p.len() - cur,
{
    if cur < 0 || cur >= p.len() {
        None
    } else if p[cur] == 0 {
        Some((Seq::empty(), cur + 1))
    } else if p[cur] >= 0xC0 {
        if p.len() < cur + 2 || jumps <= 1 {
            None
        } else {
            let target = (p[cur] as int - 0xC0) * 256 + p[cur + 1] as int;
            match name_walk(p, target, (jumps - 1) as nat) {
                None => None,
                Some((d, _)) => Some((d, cur + 2)),
            }
        }
    } else {
        let l = p[cur] as int;
        if p.len() < cur + 1 + l {
            None
        } else {
            match name_walk(p, cur + 1 + l, jumps) {
                None => None,
                Some((d, e)) => Some((seq![0x2Eu8] + lower_bytes(p.subrange(cur + 1, cur + 1 + l)) + d, e)),
            }
        }
    }
}

/// The dotted form of a walked name without its leading dot.
pub open spec fn dotted_to_name(d: Seq<u8>) -> Seq<u8> {
    if d.len() == 0 {
        d
    } else {
        d.drop_first()
    }
}

/// What the header and first question of a query hold.
pub struct QueryFields {
    pub tx_id: u16,
    pub name: Seq<u8>,
    pub qtype: u16,
    pub qclass: u16,
    /// Offset just after the first question.
    pub question_end: int,
}

/// The header and first question of `p`, when `p` holds a full header, at
/// least one question, a name that walks with at most four pointers, and the
/// four bytes of type and class after it.
pub open spec fn query_fields(p: Seq<u8>) -> Option<QueryFields> {
    if p.len() < 12 || be16(p, 4) == 0 {
        None
    } else {
        match name_walk(p, 12, 5) {
            None => None,
            Some((d, end)) => if p.len() < end + 4 {
                None
            } else {
                Some(
                    QueryFields {
                        tx_id: be16(p, 0) as u16,
                        name: dotted_to_name(d),
                        qtype: be16(p, end) as u16,
                        qclass: be16(p, end + 2) as u16,
                        question_end: end + 4,
                    },
                )
            },
        }
    }
}

/// Wire form of a name written as plain labels (no compression), ending in
/// the root label.
pub open spec fn encode_labels(ls: Seq<Seq<u8>>) -> Seq<u8>
    decreases ls.len(),
{
    if ls.len() == 0 {
        seq![0u8]
    } else {
        seq![ls[0].len() as u8] + ls[0] + encode_labels(ls.drop_first())
    }
}

/// Labels lowercased, each with a `.` in front.
pub open spec fn dotted_labels(ls: Seq<Seq<u8>>) -> Seq<u8>
    decreases ls.len(),
{
    if ls.len() == 0 {
        Seq::empty()
    } else {
        seq![0x2Eu8] + lower_bytes(ls[0]) + dotted_labels(ls.drop_first())
    }
}

/// Labels of 1 to 63 bytes.
pub open spec fn labels_ok(ls: Seq<Seq<u8>>) -> bool {
    forall|i: int| 0 <= i < ls.len() ==> 1 <= #[trigger] ls[i].len() <= 63
}

proof fn lemma_walk_encoded(p: Seq<u8>, pos: int, ls: Seq<Seq<u8>>, jumps: nat)
    requires
        labels_ok(ls),
        jumps >= 1,
        0 <= pos,
        pos + encode_labels(ls).len() <= p.len(),
        p.subrange(pos, pos + encode_labels(ls).len()) == encode_labels(ls),
    ensures
        name_walk(p, pos, jumps) == Some((dotted_labels(ls), pos + encode_labels(ls).len())),
    decreases ls.len(),
{
    let enc = encode_labels(ls);
    assert(p[pos] == enc[0]);
    if ls.len() > 0 {
        let l = ls[0].len() as int;
        let rest = ls.drop_first();
        let enc_rest = encode_labels(rest);
        assert(1 <= ls[0].len() <= 63);
        assert(enc == seq![l as u8] + ls[0] + enc_rest);
        assert(enc.len() == 1 + l + enc_rest.len());
        assert(labels_ok(rest)) by {
            assert forall|i: int| 0 <= i < rest.len() implies 1 <= #[trigger] rest[i].len() <= 63 by {
                assert(rest[i] == ls[i + 1]);
            }
        }
        assert(p.subrange(pos + 1, pos + 1 + l) =~= ls[0]) by {
            assert forall|i: int| 0 <= i < l implies p.subrange(pos + 1, pos + 1 + l)[i] == ls[0][i] by {
                assert(p[pos + 1 + i] == p.subrange(pos, pos + enc.len())[1 + i]);
            }
        }
        assert(p.subrange(pos + 1 + l, pos + 1 + l + enc_rest.len()) =~= enc_rest) by {
            assert forall|i: int| 0 <= i < enc_rest.len() implies p.subrange(
                pos + 1 + l,
                pos + 1 + l + enc_rest.len(),
            )[i] == enc_rest[i] by {
                assert(p[pos + 1 + l + i] == p.subrange(pos, pos + enc.len())[1 + l + i]);
            }
        }
        lemma_walk_encoded(p, pos + 1 + l, rest, jumps);
    }
}

/// Quick-parse agreement with the wire format: a query whose first name is
/// written as plain labels yields its transaction id, its name (labels
/// lowercased and joined by `.`), its type and its class.
pub proof fn quick_parse_reads_plain_query(
    header: Seq<u8>,
    ls: Seq<Seq<u8>>,
    qtype: u16,
    qclass: u16,
    rest: Seq<u8>,
)
    requires
        header.len() == 12,
        be16(header, 4) >= 1,
        labels_ok(ls),
    ensures
        query_fields(
            header + encode_labels(ls) + seq![(qtype / 256) as u8, (qtype % 256) as u8] + seq![
                (qclass / 256) as u8,
                (qclass % 256) as u8,
            ] + rest,
        ) == Some(
            QueryFields {
                tx_id: be16(header, 0) as u16,
                name: dotted_to_name(dotted_labels(ls)),
                qtype,
                qclass,
                question_end: 12 + encode_labels(ls).len() as int + 4,
            },
        ),
{
    let enc = encode_labels(ls);
    let p = header + enc + seq![(qtype / 256) as u8, (qtype % 256) as u8] + seq![
        (qclass / 256) as u8,
        (qclass % 256) as u8,
    ] + rest;
    assert(p.subrange(12, 12 + enc.len() as int) =~= enc);
    lemma_walk_encoded(p, 12, ls, 5);
    let end: int = 12 + enc.len() as int;
    assert(p[end] == (qtype / 256) as u8);
    assert(p[end + 1] == (qtype % 256) as u8);
    assert(p[end + 2] == (qclass / 256) as u8);
    assert(p[end + 3] == (qclass % 256) as u8);
    assert(be16(p, 4) == be16(header, 4));
    assert(be16(p, 0) == be16(header, 0));
}

/// Labels without the closing root label: the part of a compressed name
/// before its pointer.
pub open spec fn label_bytes(ls: Seq<Seq<u8>>) -> Seq<u8>
    decreases ls.len(),
{
    if ls.len() == 0 {
        Seq::empty()
    } else {
        seq![ls[0].len() as u8] + ls[0] + label_bytes(ls.drop_first())
    }
}

/// A compression pointer to offset `target` (below `0x4000`).
pub open spec fn pointer_bytes(target: int) -> Seq<u8> {
    seq![(0xC0 + target / 256) as u8, (target % 256) as u8]
}

proof fn lemma_labels_ok_rest(ls: Seq<Seq<u8>>)
    requires
        labels_ok(ls),
        ls.len() > 0,
    ensures
        labels_ok(ls.drop_first()),
{
    assert forall|i: int| 0 <= i < ls.drop_first().len() implies 1 <= #[trigger] ls.drop_first()[i].len() <= 63 by {
        assert(ls.drop_first()[i] == ls[i + 1]);
    }
}

proof fn lemma_walk_compressed(p: Seq<u8>, pos: int, ls1: Seq<Seq<u8>>, target: int, ls2: Seq<Seq<u8>>, jumps: nat)
    requires
        labels_ok(ls1),
        labels_ok(ls2),
        jumps >= 2,
        0 <= pos,
        0 <= target < 0x4000,
        pos + label_bytes(ls1).len() + 2 <= p.len(),
        p.subrange(pos, pos + label_bytes(ls1).len() + 2) == label_bytes(ls1) + pointer_bytes(target),
        target + encode_labels(ls2).len() <= p.len(),
        p.subrange(target, target + encode_labels(ls2).len()) == encode_labels(ls2),
    ensures
        name_walk(p, pos, jumps) == Some((dotted_labels(ls1) + dotted_labels(ls2), pos + label_bytes(ls1).len() + 2)),
    decreases ls1.len(),
{
    let pre = label_bytes(ls1);
    let whole = pre + pointer_bytes(target);
    assert(p[pos] == whole[0]);
    if ls1.len() == 0 {
        assert(pre.len() == 0);
        assert(p[pos] == (0xC0 + target / 256) as u8);
        assert(p[pos + 1] == whole[1]);
        assert((p[pos] as int - 0xC0) * 256 + p[pos + 1] as int == target);
        lemma_walk_encoded(p, target, ls2, (jumps - 1) as nat);
        assert(dotted_labels(ls1) + dotted_labels(ls2) =~= dotted_labels(ls2));
    } else {
        let l = ls1[0].len() as int;
        let rest = ls1.drop_first();
        lemma_labels_ok_rest(ls1);
        assert(1 <= ls1[0].len() <= 63);
        assert(pre == seq![l as u8] + ls1[0] + label_bytes(rest));
        assert(p.subrange(pos + 1, pos + 1 + l) =~= ls1[0]) by {
            assert forall|i: int| 0 <= i < l implies p.subrange(pos + 1, pos + 1 + l)[i] == ls1[0][i] by {
                assert(p[pos + 1 + i] == p.subrange(pos, pos + pre.len() + 2)[1 + i]);
                assert(whole[1 + i] == pre[1 + i]);
            }
        }
        let rest_len = label_bytes(rest).len();
        assert(p.subrange(pos + 1 + l, pos + 1 + l + rest_len + 2) =~= label_bytes(rest) + pointer_bytes(target)) by {
            assert forall|i: int| 0 <= i < rest_len + 2 implies p.subrange(pos + 1 + l, pos + 1 + l + rest_len + 2)[i]
                == (label_bytes(rest) + pointer_bytes(target))[i] by {
                assert(p[pos + 1 + l + i] == p.subrange(pos, pos + pre.len() + 2)[1 + l + i]);
            }
        }
        lemma_walk_compressed(p, pos + 1 + l, rest, target, ls2, jumps);
        assert(seq![0x2Eu8] + lower_bytes(ls1[0]) + (dotted_labels(rest) + dotted_labels(ls2)) =~= dotted_labels(
            ls1,
        ) + dotted_labels(ls2));
    }
}

/// A query whose first name is `prefix` labels and then a pointer to
/// `target`, followed by type, class and `rest`.
pub open spec fn compressed_query(header: Seq<u8>, prefix: Seq<Seq<u8>>, target: int, qtype: u16, qclass: u16, rest: Seq<u8>) -> Seq<u8> {
    header + label_bytes(prefix) + pointer_bytes(target) + seq![(qtype / 256) as u8, (qtype % 256) as u8] + seq![
        (qclass / 256) as u8,
        (qclass % 256) as u8,
    ] + rest
}

/// Quick-parse agreement for compressed names: a first name written as
/// labels and then a pointer to a name of plain labels elsewhere in the
/// packet yields the two label runs, lowercased and joined by `.`, with
/// the type and class that follow the pointer.
pub proof fn quick_parse_reads_compressed_query(
    header: Seq<u8>,
    prefix: Seq<Seq<u8>>,
    target: int,
    suffix: Seq<Seq<u8>>,
    qtype: u16,
    qclass: u16,
    rest: Seq<u8>,
)
    requires
        header.len() == 12,
        be16(header, 4) >= 1,
        labels_ok(prefix),
        labels_ok(suffix),
        0 <= target < 0x4000,
        target + encode_labels(suffix).len() <= compressed_query(header, prefix, target, qtype, qclass, rest).len(),
        compressed_query(header, prefix, target, qtype, qclass, rest).subrange(target, target + encode_labels(suffix).len())
            == encode_labels(suffix),
    ensures
        query_fields(compressed_query(header, prefix, target, qtype, qclass, rest)) == Some(
            QueryFields {
                tx_id: be16(header, 0) as u16,
                name: dotted_to_name(dotted_labels(prefix) + dotted_labels(suffix)),
                qtype,
                qclass,
                question_end: 12 + label_bytes(prefix).len() as int + 6,
            },
        ),
{
    let p = compressed_query(header, prefix, target, qtype, qclass, rest);
    let pre = label_bytes(prefix);
    let n: int = pre.len() as int;
    assert(p.subrange(12, 12 + n + 2) =~= pre + pointer_bytes(target));
    lemma_walk_compressed(p, 12, prefix, target, suffix, 5);
    let end: int = 12 + n + 2;
    assert(p[end] == (qtype / 256) as u8);
    assert(p[end + 1] == (qtype % 256) as u8);
    assert(p[end + 2] == (qclass / 256) as u8);
    assert(p[end + 3] == (qclass % 256) as u8);
    assert(be16(p, 4) == be16(header, 4));
    assert(be16(p, 0) == be16(header, 0));
}

/// Record type code of OPT, the EDNS pseudo-record.
pub const RTYPE_OPT: u16 = 41;

/// Whether one of `n` records starting at `pos` is an OPT record; the walk
/// stops, finding none, at a record that does not fit.
pub open spec fn opt_among(p: Seq<u8>, pos: int, n: nat) -> bool
    decreases n,
{
    if n == 0 {
        false
    } else {
        match skip_name(p, pos) {
            None => false,
            Some(e) => if e + 10 > p.len() {
                false
            } else if be16(p, e) == RTYPE_OPT as int {
                true
            } else {
                opt_among(p, e + 10 + be16(p, e + 8), (n - 1) as nat)
            },
        }
    }
}

/// EDNS presence as quick parse reports it: only for a query without
/// answer and authority records, by walking the remaining questions and
/// then the additional section from `question_end`; otherwise false.
pub open spec fn edns_of(p: Seq<u8>, question_end: int) -> bool {
    &&& p.len() >= 12
    &&& be16(p, 6) == 0
    &&& be16(p, 8) == 0
    &&& be16(p, 4) >= 1
    &&& match skip_questions(p, question_end, (be16(p, 4) - 1) as nat) {
        Some(s) => opt_among(p, s, be16(p, 10) as nat),
        None => false,
    }
}

fn detect_edns(packet: &[u8], question_end: usize) -> (r: bool)
    requires
        question_end <= packet@.len(),
    ensures
        r == edns_of(packet@, question_end as int),
{
    if packet.len() < 12 {
        return false;
    }
    let qd_count = read_be16(packet, 4);
    let an_count = read_be16(packet, 6);
    let ns_count = read_be16(packet, 8);
    let ar_count = read_be16(packet, 10);
    if an_count != 0 || ns_count != 0 || qd_count == 0 {
        return false;
    }
    let len = packet.len() as u128;
    let mut pos: u128 = question_end as u128;
    let mut i: u16 = 1;
    while i < qd_count
        invariant
            len == packet@.len(),
            len <= usize::MAX,
            12 <= len,
            be16(packet@, 6) == 0,
            be16(packet@, 8) == 0,
            qd_count >= 1,
            qd_count as int == be16(packet@, 4),
            1 <= i <= qd_count,
            pos <= len + 5,
            qd_count as int == be16(packet@, 4),
            skip_questions(packet@, question_end as int, (qd_count - 1) as nat) == skip_questions(
                packet@,
                pos as int,
                (qd_count - i) as nat,
            ),
        decreases qd_count - i,
    {
        match skip_name_at(packet, pos) {
            None => {
                return false;
            },
            Some(e) => {
                pos = e + 4;
            },
        }
        i = i + 1;
    }
    let ghost start = pos as int;
    let mut j: u16 = 0;
    while j < ar_count
        invariant
            len == packet@.len(),
            len <= usize::MAX,
            12 <= len,
            be16(packet@, 6) == 0,
            be16(packet@, 8) == 0,
            qd_count >= 1,
            qd_count as int == be16(packet@, 4),
            j <= ar_count,
            pos <= len + 0x1_0000,
            ar_count as int == be16(packet@, 10),
            skip_questions(packet@, question_end as int, (qd_count - 1) as nat) == Some(start),
            opt_among(packet@, start, ar_count as nat) == opt_among(packet@, pos as int, (ar_count - j) as nat),
        decreases ar_count - j,
    {
        let e = match skip_name_at(packet, pos) {
            None => {
                return false;
            },
            Some(e) => e,
        };
        if e + 10 > len {
            return false;
        }
        if read_be16(packet, e as usize) == RTYPE_OPT {
            return true;
        }
        let rd_len = read_be16(packet, (e + 8) as usize);
        pos = e + 10 + rd_len as u128;
        j = j + 1;
    }
    false
}

/// Quick parse result.
pub struct QuickQuery {
    pub tx_id: u16,
    pub qname: String,
    pub qtype: u16,
    pub qclass: u16,
    /// Whether an OPT record was seen (looked for only in the standard
    /// query shape; see `edns_of`).
    pub edns: bool,
}

/// Relies on std::str::from_utf8: it succeeds exactly on valid UTF-8 and then
/// holds the decoded characters.
#[verifier::external_body]
fn utf8_text(b: &[u8]) -> (r: Option<String>)
    ensures
        r.is_some() == valid_utf8(b@),
        r.is_some() ==> r.unwrap()@ == decode_utf8(b@),
{
    std::str::from_utf8(b).ok().map(|s| s.to_string())
}

fn lower_u8(b: u8) -> (r: u8)
    ensures
        r == lower_byte(b),
{
    if b >= 65 && b <= 90 {
        b + 32
    } else {
        b
    }
}

fn read_be16(p: &[u8], i: usize) -> (r: u16)
    requires
        i + 1 < p@.len(),
    ensures
        r as int == be16(p@, i as int),
{
    (p[i] as u16) * 256 + (p[i + 1] as u16)
}

/// Writes `tx_id` big-endian over the first two bytes of `packet`; a packet
/// shorter than two bytes is left as it is.
pub fn set_transaction_id(packet: &mut [u8], tx_id: u16)
    ensures
        final(packet)@.len() == old(packet)@.len(),
        old(packet)@.len() >= 2 ==> be16(final(packet)@, 0) == tx_id as int,
        old(packet)@.len() >= 2 ==> final(packet)@.subrange(2, final(packet)@.len() as int)
            == old(packet)@.subrange(2, old(packet)@.len() as int),
        old(packet)@.len() < 2 ==> final(packet)@ == old(packet)@,
{
    if packet.len() >= 2 {
        packet[0] = (tx_id / 256) as u8;
        packet[1] = (tx_id % 256) as u8;
        proof {
            assert(packet@.subrange(2, packet@.len() as int) =~= old(packet)@.subrange(
                2,
                old(packet)@.len() as int,
            ));
        }
    }
}

/// Reads the transaction id, the first question's type and class, and its
/// name, ASCII-lowercased and with labels joined by `.`, into `buf`.
/// Compression pointers are followed at most four times. `None` when the
/// packet is malformed in any of those parts, when the name does not fit in
/// `buf`, or when it is not valid UTF-8.
#[verifier::rlimit(40)]
pub fn parse_quick(packet: &[u8], buf: &mut [u8]) -> (r: Option<QuickQuery>)
    ensures
        final(buf)@.len() == old(buf)@.len(),
        r.is_some() <==> (query_fields(packet@) is Some && query_fields(packet@).unwrap().name.len()
            <= old(buf)@.len() && valid_utf8(query_fields(packet@).unwrap().name)),
        r.is_some() ==> ({
            let f = query_fields(packet@).unwrap();
            let q = r.unwrap();
            &&& q.tx_id == f.tx_id
            &&& q.qtype == f.qtype
            &&& q.qclass == f.qclass
            &&& q.qname@ == decode_utf8(f.name)
            &&& q.edns == edns_of(packet@, f.question_end)
            &&& final(buf)@.subrange(0, f.name.len() as int) == f.name
        }),
{
    if packet.len() < 12 {
        return None;
    }
    let tx_id = read_be16(packet, 0);
    let qd_count = read_be16(packet, 4);
    if qd_count == 0 {
        return None;
    }
    let ghost total = name_walk(packet@, 12, 5);
    let ghost dotted: Seq<u8> = Seq::empty();
    let packet_len = packet.len();
    let mut pos: usize = 12;
    let mut buf_pos: usize = 0;
    let mut jumped = false;
    let mut max_jumps: usize = 5;
    let mut current_pos: usize = 12;
    loop
        invariant
            packet_len == packet@.len(),
            12 <= packet_len,
            buf@.len() == old(buf)@.len(),
            1 <= max_jumps <= 5,
            buf_pos <= buf@.len(),
            pos <= packet_len,
            buf@.subrange(0, buf_pos as int) == dotted_to_name(dotted),
            (dotted.len() == 0) == (buf_pos == 0),
            dotted.len() == 0 || dotted.len() == buf_pos + 1,
            total == name_walk(packet@, 12, 5),
            total == match name_walk(packet@, current_pos as int, max_jumps as nat) {
                None => None,
                Some((d, e)) => Some((dotted + d, if jumped { pos as int } else { e })),
            },
        ensures
            pos <= packet_len,
            buf@.len() == old(buf)@.len(),
            buf_pos <= buf@.len(),
            buf@.subrange(0, buf_pos as int) == dotted_to_name(dotted),
            total == Some((dotted, pos as int)),
        decreases max_jumps, packet_len - current_pos,
    {
        if current_pos >= packet_len {
            return None;
        }
        let len = packet[current_pos];
        if len == 0 {
            if !jumped {
                pos = current_pos + 1;
            }
            proof {
                assert(dotted + Seq::<u8>::empty() =~= dotted);
            }
            break;
        }
        if len >= 0xC0 {
            if packet_len - current_pos < 2 {
                return None;
            }
            if !jumped {
                pos = current_pos + 2;
                jumped = true;
            }
            let offset = ((len - 0xC0) as usize) * 256 + (packet[current_pos + 1] as usize);
            current_pos = offset;
            max_jumps = max_jumps - 1;
            if max_jumps == 0 {
                return None;
            }
            continue;
        }
        let label_len = len as usize;
        let ghost label_start = current_pos + 1;
        current_pos = current_pos + 1;
        if packet_len - current_pos < label_len {
            return None;
        }
        let ghost rest = name_walk(packet@, (current_pos + label_len) as int, max_jumps as nat);
        let ghost label = lower_bytes(packet@.subrange(label_start as int, label_start + label_len));
        let ghost new_dotted = dotted + seq![0x2Eu8] + label;
        let ghost start_pos = buf_pos;
        if buf_pos > 0 {
            if buf_pos >= buf.len() {
                proof {
                    if let Some((d, e)) = rest {
                        assert(total.unwrap().0 == new_dotted + d);
                        assert(dotted_to_name(total.unwrap().0).len() > buf@.len());
                    }
                }
                return None;
            }
            buf[buf_pos] = 0x2E;
            buf_pos = buf_pos + 1;
        }
        let ghost base = buf_pos;
        proof {
            if dotted.len() == 0 {
                assert(dotted_to_name(new_dotted) =~= label);
            } else {
                assert(dotted_to_name(new_dotted) =~= dotted_to_name(dotted) + seq![0x2Eu8] + label);
                assert(buf@.subrange(0, start_pos as int) == dotted_to_name(dotted));
            }
            assert(buf@.subrange(0, base as int) =~= dotted_to_name(new_dotted).subrange(0, base as int));
        }
        let mut k: usize = 0;
        while k < label_len
            invariant
                packet_len == packet@.len(),
                current_pos + label_len <= packet_len,
                buf@.len() == old(buf)@.len(),
                base <= buf_pos <= buf@.len(),
                buf_pos == base + k,
                k <= label_len,
                label == lower_bytes(packet@.subrange(current_pos as int, current_pos + label_len)),
                buf@.subrange(0, base as int) == dotted_to_name(new_dotted).subrange(0, base as int),
                buf@.subrange(base as int, buf_pos as int) == label.subrange(0, k as int),
                dotted_to_name(new_dotted).len() == base + label_len,
                total == name_walk(packet@, 12, 5),
                total == match rest {
                    None => None,
                    Some((d, e)) => Some((new_dotted + d, if jumped { pos as int } else { e })),
                },
            decreases label_len - k,
        {
            if buf_pos >= buf.len() {
                proof {
                    if let Some((d, e)) = rest {
                        assert(total.unwrap().0 == new_dotted + d);
                        assert(new_dotted.len() > 0);
                        assert(dotted_to_name(new_dotted + d).len() == new_dotted.len() + d.len() - 1);
                        assert(dotted_to_name(new_dotted + d).len() > buf@.len());
                    }
                }
                return None;
            }
            let b = lower_u8(packet[current_pos + k]);
            buf[buf_pos] = b;
            buf_pos = buf_pos + 1;
            k = k + 1;
            proof {
                assert(buf@.subrange(base as int, buf_pos as int) =~= label.subrange(0, k as int));
            }
        }
        current_pos = current_pos + label_len;
        proof {
            assert(buf@.subrange(0, buf_pos as int) =~= buf@.subrange(0, base as int) + buf@.subrange(
                base as int,
                buf_pos as int,
            ));
            assert(buf@.subrange(0, buf_pos as int) =~= dotted_to_name(new_dotted));
            dotted = new_dotted;
        }
    }
    proof {
        assert(dotted_to_name(dotted).len() == buf_pos);
    }
    if packet_len - pos < 4 {
        return None;
    }
    let qtype = read_be16(packet, pos);
    let qclass = read_be16(packet, pos + 2);
    let edns = detect_edns(packet, pos + 4);
    let qname = utf8_text(&buf[0..buf_pos]);
    match qname {
        None => None,
        Some(qname) => Some(QuickQuery { tx_id, qname, qtype, qclass, edns }),
    }
}

/// Offset just after the name at `pos`, skipped without following pointers
/// (a pointer ends the name after its two bytes).
pub open spec fn skip_name(p: Seq<u8>, pos: int) -> Option<int>
    decreases (p.len() - pos) as nat,
{
    if pos < 0 || pos >= p.len() {
        None
    } else if p[pos] == 0 {
        Some(pos + 1)
    } else if p[pos] >= 0xC0 {
        Some(pos + 2)
    } else if pos + 1 + p[pos] as int >= p.len() {
        None
    } else {
        skip_name(p, pos + 1 + p[pos] as int)
    }
}

/// Offset after `n` questions starting at `pos`.
pub open spec fn skip_questions(p: Seq<u8>, pos: int, n: nat) -> Option<int>
    decreases n,
{
    if n == 0 {
        Some(pos)
    } else {
        match skip_name(p, pos) {
            None => None,
            Some(e) => skip_questions(p, e + 4, (n - 1) as nat),
        }
    }
}

/// Smallest TTL among `n` resource records starting at `pos`
/// (`0xFFFF_FFFF` when `n` is zero).
pub open spec fn records_min_ttl(p: Seq<u8>, pos: int, n: nat) -> Option<int>
    decreases n,
{
    if n == 0 {
        Some(0xFFFF_FFFF)
    } else {
        match skip_name(p, pos) {
            None => None,
            Some(e) => if e + 10 > p.len() {
                None
            } else {
                match records_min_ttl(p, e + 10 + be16(p, e + 8), (n - 1) as nat) {
                    None => None,
                    Some(m) => Some(if be32(p, e + 4) < m { be32(p, e + 4) } else { m }),
                }
            },
        }
    }
}

/// What the header and answers of a response hold.
pub struct ResponseFields {
    pub rcode: u8,
    pub truncated: bool,
    pub min_ttl: u32,
}

/// RCODE (low four bits of byte 3), TC (bit 1 of byte 2) and the smallest
/// answer TTL (0 without answers) of `p`.
pub open spec fn response_fields(p: Seq<u8>) -> Option<ResponseFields> {
    if p.len() < 12 {
        None
    } else {
        let rcode = (p[3] % 16) as u8;
        let truncated = (p[2] / 2) % 2 == 1;
        if be16(p, 6) == 0 {
            Some(ResponseFields { rcode, truncated, min_ttl: 0 })
        } else {
            match skip_questions(p, 12, be16(p, 4) as nat) {
                None => None,
                Some(q) => match records_min_ttl(p, q, be16(p, 6) as nat) {
                    None => None,
                    Some(m) => Some(
                        ResponseFields {
                            rcode,
                            truncated,
                            min_ttl: if m == 0xFFFF_FFFF { 0 } else { m as u32 },
                        },
                    ),
                },
            }
        }
    }
}

/// Quick response parse result.
pub struct QuickResponse {
    pub rcode: u8,
    pub truncated: bool,
    pub min_ttl: u32,
}

const POS_SLACK: u128 = 0x2_0000;

fn skip_name_at(packet: &[u8], start: u128) -> (r: Option<u128>)
    requires
        start <= packet@.len() + POS_SLACK,
    ensures
        r is Some == skip_name(packet@, start as int) is Some,
        r is Some ==> r.unwrap() as int == skip_name(packet@, start as int).unwrap(),
        r is Some ==> r.unwrap() <= packet@.len() + 1,
{
    let len = packet.len() as u128;
    let mut pos = start;
    loop
        invariant
            len == packet@.len(),
            len <= usize::MAX,
            pos <= len + POS_SLACK,
            skip_name(packet@, start as int) == skip_name(packet@, pos as int),
        decreases len + POS_SLACK - pos,
    {
        if pos >= len {
            return None;
        }
        let b = packet[pos as usize];
        if b == 0 {
            return Some(pos + 1);
        }
        if b >= 0xC0 {
            return Some(pos + 2);
        }
        pos = pos + 1 + b as u128;
    }
}

fn read_be32(p: &[u8], i: usize) -> (r: u32)
    requires
        i + 3 < p@.len(),
    ensures
        r as int == be32(p@, i as int),
{
    let n = p.len();
    (read_be16(p, i) as u32) * 65536 + (read_be16(p, i + 2) as u32)
}

/// Reads RCODE, the TC flag and the smallest TTL in the answer section,
/// skipping names without following pointers. `None` when the packet is
/// shorter than a header or ends inside the questions or answers.
pub fn parse_response_quick(packet: &[u8]) -> (r: Option<QuickResponse>)
    ensures
        r.is_some() == response_fields(packet@) is Some,
        r.is_some() ==> ({
            let f = response_fields(packet@).unwrap();
            let q = r.unwrap();
            q.rcode == f.rcode && q.truncated == f.truncated && q.min_ttl == f.min_ttl
        }),
{
    if packet.len() < 12 {
        return None;
    }
    let rcode = packet[3] % 16;
    let truncated = (packet[2] / 2) % 2 == 1;
    let qd_count = read_be16(packet, 4);
    let an_count = read_be16(packet, 6);
    if an_count == 0 {
        return Some(QuickResponse { rcode, truncated, min_ttl: 0 });
    }
    let len = packet.len() as u128;
    let mut pos: u128 = 12;
    let mut i: u16 = 0;
    while i < qd_count
        invariant
            len == packet@.len(),
            len <= usize::MAX,
            pos <= len + 5,
            12 <= len,
            an_count != 0,
            an_count as int == be16(packet@, 6),
            i <= qd_count,
            qd_count as int == be16(packet@, 4),
            skip_questions(packet@, 12, qd_count as nat) == skip_questions(
                packet@,
                pos as int,
                (qd_count - i) as nat,
            ),
        decreases qd_count - i,
    {
        match skip_name_at(packet, pos) {
            None => {
                return None;
            },
            Some(e) => {
                pos = e + 4;
            },
        }
        i = i + 1;
    }
    let ghost qend = pos as int;
    let mut min_ttl: u32 = 0xFFFF_FFFF;
    let mut j: u16 = 0;
    while j < an_count
        invariant
            len == packet@.len(),
            len <= usize::MAX,
            an_count as int == be16(packet@, 6),
            pos <= len + 0x1_0000,
            j <= an_count,
            skip_questions(packet@, 12, be16(packet@, 4) as nat) == Some(qend),
            records_min_ttl(packet@, qend, an_count as nat) == match records_min_ttl(
                packet@,
                pos as int,
                (an_count - j) as nat,
            ) {
                None => None,
                Some(m) => Some(if (min_ttl as int) < m { min_ttl as int } else { m }),
            },
        decreases an_count - j,
    {
        let e = match skip_name_at(packet, pos) {
            None => {
                return None;
            },
            Some(e) => e,
        };
        if e + 10 > len {
            return None;
        }
        let ttl = read_be32(packet, (e + 4) as usize);
        if ttl < min_ttl {
            min_ttl = ttl;
        }
        let rd_len = read_be16(packet, (e + 8) as usize);
        pos = e + 10 + rd_len as u128;
        j = j + 1;
    }
    if min_ttl == 0xFFFF_FFFF {
        min_ttl = 0;
    }
    Some(QuickResponse { rcode, truncated, min_ttl })
}

} // verus!
