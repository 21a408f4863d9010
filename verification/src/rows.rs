//! Typed result rows and reply decoding.
//!
//! A reply from the service is one binary message holding either an encoded
//! list of rows of the shape the query expects, or an encoded error string.
//! Decoding therefore tries the typed shape first and falls back to reading
//! a single string; only these two readings exist.
//!
//! Scores and weights travel as 64-bit floats; this crate carries them as
//! their raw IEEE-754 bit patterns, which preserves every value exactly.
use vstd::prelude::*;
use crate::enc::{MAX_WIRE_LEN, enc_arr, enc_f64_bits, enc_nil, enc_str, emit_arr_hdr, emit_f64_bits, emit_nil, emit_str};
use crate::dec::{chain, concat_map, lemma_chain_chain, lemma_concat_map_push, lemma_parse_arr_enc, lemma_parse_f64_enc, lemma_parse_nil_enc, lemma_parse_rows_enc, lemma_parse_rows_step, lemma_parse_str_enc, parse_arr_hdr, parse_f64_bits, parse_nil, parse_rows, parse_str, rd_arr_hdr, rd_f64_bits, rd_nil, rd_str};

verus! {

// ---------------------------------------------------------------------------
// Row types and their mathematical views
// ---------------------------------------------------------------------------
/// A three-column row `(ego, target, score)`: score triples from score
/// queries, and edge triples `(source, target, weight)` from edge listings.
#[derive(Debug, Clone, PartialEq, Eq)]
pub struct ScoreRow {
    pub ego: Vec<u8>,
    pub target: Vec<u8>,
    pub score_bits: u64,
}

#[verifier::ext_equal]
pub ghost struct ScoreRowV {
    pub ego: Seq<u8>,
    pub target: Seq<u8>,
    pub score_bits: u64,
}

impl View for ScoreRow {
    type V = ScoreRowV;

    open spec fn view(&self) -> ScoreRowV {
        ScoreRowV { ego: self.ego@, target: self.target@, score_bits: self.score_bits }
    }
}

/// A two-column row `(node, weight)` from node-weight queries.
#[derive(Debug, Clone, PartialEq, Eq)]
pub struct NodeWeightRow {
    pub node: Vec<u8>,
    pub weight_bits: u64,
}

#[verifier::ext_equal]
pub ghost struct NodeWeightRowV {
    pub node: Seq<u8>,
    pub weight_bits: u64,
}

impl View for NodeWeightRow {
    type V = NodeWeightRowV;

    open spec fn view(&self) -> NodeWeightRowV {
        NodeWeightRowV { node: self.node@, weight_bits: self.weight_bits }
    }
}

/// A two-column row `(source, target)` from connection listings.
#[derive(Debug, Clone, PartialEq, Eq)]
pub struct ConnectionRow {
    pub source: Vec<u8>,
    pub target: Vec<u8>,
}

#[verifier::ext_equal]
pub ghost struct ConnectionRowV {
    pub source: Seq<u8>,
    pub target: Seq<u8>,
}

impl View for ConnectionRow {
    type V = ConnectionRowV;

    open spec fn view(&self) -> ConnectionRowV {
        ConnectionRowV { source: self.source@, target: self.target@ }
    }
}

pub open spec fn score_rows_view(rows: Seq<ScoreRow>) -> Seq<ScoreRowV> {
    rows.map_values(|r: ScoreRow| r@)
}

pub open spec fn node_weight_rows_view(rows: Seq<NodeWeightRow>) -> Seq<NodeWeightRowV> {
    rows.map_values(|r: NodeWeightRow| r@)
}

pub open spec fn connection_rows_view(rows: Seq<ConnectionRow>) -> Seq<ConnectionRowV> {
    rows.map_values(|r: ConnectionRow| r@)
}

pub open spec fn ids_view(rows: Seq<Vec<u8>>) -> Seq<Seq<u8>> {
    rows.map_values(|r: Vec<u8>| r@)
}

// ---------------------------------------------------------------------------
// Well-formedness: every string fits a 32-bit wire length
// ---------------------------------------------------------------------------
pub open spec fn score_row_wf(r: ScoreRowV) -> bool {
    r.ego.len() <= MAX_WIRE_LEN && r.target.len() <= MAX_WIRE_LEN
}

pub open spec fn score_table_wf(rows: Seq<ScoreRowV>) -> bool {
    rows.len() <= MAX_WIRE_LEN && forall|k: int|
        0 <= k < rows.len() ==> score_row_wf(#[trigger] rows[k])
}

pub open spec fn node_weight_row_wf(r: NodeWeightRowV) -> bool {
    r.node.len() <= MAX_WIRE_LEN
}

pub open spec fn node_weight_table_wf(rows: Seq<NodeWeightRowV>) -> bool {
    rows.len() <= MAX_WIRE_LEN && forall|k: int|
        0 <= k < rows.len() ==> node_weight_row_wf(#[trigger] rows[k])
}

pub open spec fn connection_row_wf(r: ConnectionRowV) -> bool {
    r.source.len() <= MAX_WIRE_LEN && r.target.len() <= MAX_WIRE_LEN
}

pub open spec fn connection_table_wf(rows: Seq<ConnectionRowV>) -> bool {
    rows.len() <= MAX_WIRE_LEN && forall|k: int|
        0 <= k < rows.len() ==> connection_row_wf(#[trigger] rows[k])
}

pub open spec fn id_table_wf(rows: Seq<Seq<u8>>) -> bool {
    rows.len() <= MAX_WIRE_LEN && forall|k: int|
        0 <= k < rows.len() ==> (#[trigger] rows[k]).len() <= MAX_WIRE_LEN
}

// ---------------------------------------------------------------------------
// Row and table encodings
// ---------------------------------------------------------------------------
pub open spec fn enc_score_row(r: ScoreRowV) -> Seq<u8> {
    enc_arr(3) + enc_str(r.ego) + enc_str(r.target) + enc_f64_bits(r.score_bits)
}

pub open spec fn score_row_encoder() -> spec_fn(ScoreRowV) -> Seq<u8> {
    |r: ScoreRowV| enc_score_row(r)
}

pub open spec fn enc_score_table(rows: Seq<ScoreRowV>) -> Seq<u8> {
    enc_arr(rows.len()) + concat_map(rows, score_row_encoder())
}

pub open spec fn enc_node_weight_row(r: NodeWeightRowV) -> Seq<u8> {
    enc_arr(2) + enc_str(r.node) + enc_f64_bits(r.weight_bits)
}

pub open spec fn node_weight_row_encoder() -> spec_fn(NodeWeightRowV) -> Seq<u8> {
    |r: NodeWeightRowV| enc_node_weight_row(r)
}

pub open spec fn enc_node_weight_table(rows: Seq<NodeWeightRowV>) -> Seq<u8> {
    enc_arr(rows.len()) + concat_map(rows, node_weight_row_encoder())
}

pub open spec fn enc_connection_row(r: ConnectionRowV) -> Seq<u8> {
    enc_arr(2) + enc_str(r.source) + enc_str(r.target)
}

pub open spec fn connection_row_encoder() -> spec_fn(ConnectionRowV) -> Seq<u8> {
    |r: ConnectionRowV| enc_connection_row(r)
}

pub open spec fn enc_connection_table(rows: Seq<ConnectionRowV>) -> Seq<u8> {
    enc_arr(rows.len()) + concat_map(rows, connection_row_encoder())
}

pub open spec fn enc_id_row(id: Seq<u8>) -> Seq<u8> {
    enc_arr(1) + enc_str(id)
}

pub open spec fn id_row_encoder() -> spec_fn(Seq<u8>) -> Seq<u8> {
    |id: Seq<u8>| enc_id_row(id)
}

pub open spec fn enc_id_table(rows: Seq<Seq<u8>>) -> Seq<u8> {
    enc_arr(rows.len()) + concat_map(rows, id_row_encoder())
}

pub open spec fn enc_nils(n: nat) -> Seq<u8>
    decreases n,
{
    if n == 0 {
        Seq::empty()
    } else {
        enc_nil() + enc_nils((n - 1) as nat)
    }
}

/// An acknowledgement table: `n` empty rows.
pub open spec fn enc_ack_table(n: nat) -> Seq<u8> {
    enc_arr(n) + enc_nils(n)
}

// ---------------------------------------------------------------------------
// Row and table parsers
// ---------------------------------------------------------------------------
pub open spec fn parse_score_row(t: Seq<u8>) -> Option<(ScoreRowV, Seq<u8>)> {
    match parse_arr_hdr(t) {
        None => None,
        Some((n, t1)) => if n != 3 {
            None
        } else {
            match parse_str(t1) {
                None => None,
                Some((ego, t2)) => match parse_str(t2) {
                    None => None,
                    Some((target, t3)) => match parse_f64_bits(t3) {
                        None => None,
                        Some((bits, t4)) => Some(
                            (ScoreRowV { ego, target, score_bits: bits }, t4),
                        ),
                    },
                },
            }
        },
    }
}

pub open spec fn score_row_parser() -> spec_fn(Seq<u8>) -> Option<(ScoreRowV, Seq<u8>)> {
    |t: Seq<u8>| parse_score_row(t)
}

pub open spec fn parse_score_table(s: Seq<u8>) -> Option<Seq<ScoreRowV>> {
    match parse_arr_hdr(s) {
        None => None,
        Some((n, t)) => match parse_rows(t, n, score_row_parser()) {
            None => None,
            Some((rows, _)) => Some(rows),
        },
    }
}

pub open spec fn parse_node_weight_row(t: Seq<u8>) -> Option<(NodeWeightRowV, Seq<u8>)> {
    match parse_arr_hdr(t) {
        None => None,
        Some((n, t1)) => if n != 2 {
            None
        } else {
            match parse_str(t1) {
                None => None,
                Some((node, t2)) => match parse_f64_bits(t2) {
                    None => None,
                    Some((bits, t3)) => Some((NodeWeightRowV { node, weight_bits: bits }, t3)),
                },
            }
        },
    }
}

pub open spec fn node_weight_row_parser() -> spec_fn(Seq<u8>) -> Option<(NodeWeightRowV, Seq<u8>)> {
    |t: Seq<u8>| parse_node_weight_row(t)
}

pub open spec fn parse_node_weight_table(s: Seq<u8>) -> Option<Seq<NodeWeightRowV>> {
    match parse_arr_hdr(s) {
        None => None,
        Some((n, t)) => match parse_rows(t, n, node_weight_row_parser()) {
            None => None,
            Some((rows, _)) => Some(rows),
        },
    }
}

pub open spec fn parse_connection_row(t: Seq<u8>) -> Option<(ConnectionRowV, Seq<u8>)> {
    match parse_arr_hdr(t) {
        None => None,
        Some((n, t1)) => if n != 2 {
            None
        } else {
            match parse_str(t1) {
                None => None,
                Some((source, t2)) => match parse_str(t2) {
                    None => None,
                    Some((target, t3)) => Some((ConnectionRowV { source, target }, t3)),
                },
            }
        },
    }
}

pub open spec fn connection_row_parser() -> spec_fn(Seq<u8>) -> Option<(ConnectionRowV, Seq<u8>)> {
    |t: Seq<u8>| parse_connection_row(t)
}

pub open spec fn parse_connection_table(s: Seq<u8>) -> Option<Seq<ConnectionRowV>> {
    match parse_arr_hdr(s) {
        None => None,
        Some((n, t)) => match parse_rows(t, n, connection_row_parser()) {
            None => None,
            Some((rows, _)) => Some(rows),
        },
    }
}

pub open spec fn parse_id_row(t: Seq<u8>) -> Option<(Seq<u8>, Seq<u8>)> {
    match parse_arr_hdr(t) {
        None => None,
        Some((n, t1)) => if n != 1 {
            None
        } else {
            parse_str(t1)
        },
    }
}

pub open spec fn id_row_parser() -> spec_fn(Seq<u8>) -> Option<(Seq<u8>, Seq<u8>)> {
    |t: Seq<u8>| parse_id_row(t)
}

pub open spec fn parse_id_table(s: Seq<u8>) -> Option<Seq<Seq<u8>>> {
    match parse_arr_hdr(s) {
        None => None,
        Some((n, t)) => match parse_rows(t, n, id_row_parser()) {
            None => None,
            Some((rows, _)) => Some(rows),
        },
    }
}

pub open spec fn parse_nils(t: Seq<u8>, n: nat) -> Option<Seq<u8>>
    decreases n,
{
    if n == 0 {
        Some(t)
    } else {
        match parse_nil(t) {
            None => None,
            Some(t1) => parse_nils(t1, (n - 1) as nat),
        }
    }
}

pub open spec fn parse_ack_table(s: Seq<u8>) -> Option<nat> {
    match parse_arr_hdr(s) {
        None => None,
        Some((n, t)) => match parse_nils(t, n) {
            None => None,
            Some(_) => Some(n),
        },
    }
}

/// A reply read as one string, as the error fallback does; bytes after the
/// string value are ignored, as the typed reading also ignores them.
pub open spec fn parse_str_value(s: Seq<u8>) -> Option<Seq<u8>> {
    match parse_str(s) {
        None => None,
        Some((v, _)) => Some(v),
    }
}

// ---------------------------------------------------------------------------
// Round trips: decoding a table undoes encoding it
// ---------------------------------------------------------------------------
pub proof fn lemma_parse_score_row_enc(r: ScoreRowV, rest: Seq<u8>)
    requires
        score_row_wf(r),
    ensures
        parse_score_row(enc_score_row(r) + rest) == Some((r, rest)),
{
    let x3 = enc_f64_bits(r.score_bits) + rest;
    let x2 = enc_str(r.target) + x3;
    let x1 = enc_str(r.ego) + x2;
    assert(enc_score_row(r) + rest =~= enc_arr(3) + x1);
    lemma_parse_arr_enc(3, x1);
    lemma_parse_str_enc(r.ego, x2);
    lemma_parse_str_enc(r.target, x3);
    lemma_parse_f64_enc(r.score_bits, rest);
    assert(ScoreRowV { ego: r.ego, target: r.target, score_bits: r.score_bits } =~= r);
}

/// Every well-formed score table decodes back to exactly the rows that were
/// encoded.
pub proof fn lemma_score_table_roundtrip(rows: Seq<ScoreRowV>)
    requires
        score_table_wf(rows),
    ensures
        parse_score_table(enc_score_table(rows)) == Some(rows),
{
    let f = score_row_encoder();
    let p = score_row_parser();
    let body = concat_map(rows, f);
    lemma_parse_arr_enc(rows.len(), body);
    assert forall|k: int, t2: Seq<u8>| 0 <= k < rows.len() implies #[trigger] p(f(rows[k]) + t2)
        == Some((rows[k], t2)) by {
        lemma_parse_score_row_enc(rows[k], t2);
    }
    lemma_parse_rows_enc(rows, Seq::empty(), f, p);
    assert(body + Seq::<u8>::empty() =~= body);
}

pub proof fn lemma_parse_node_weight_row_enc(r: NodeWeightRowV, rest: Seq<u8>)
    requires
        node_weight_row_wf(r),
    ensures
        parse_node_weight_row(enc_node_weight_row(r) + rest) == Some((r, rest)),
{
    let x2 = enc_f64_bits(r.weight_bits) + rest;
    let x1 = enc_str(r.node) + x2;
    assert(enc_node_weight_row(r) + rest =~= enc_arr(2) + x1);
    lemma_parse_arr_enc(2, x1);
    lemma_parse_str_enc(r.node, x2);
    lemma_parse_f64_enc(r.weight_bits, rest);
    assert(NodeWeightRowV { node: r.node, weight_bits: r.weight_bits } =~= r);
}

/// Every well-formed node-weight table decodes back to what was encoded.
pub proof fn lemma_node_weight_table_roundtrip(rows: Seq<NodeWeightRowV>)
    requires
        node_weight_table_wf(rows),
    ensures
        parse_node_weight_table(enc_node_weight_table(rows)) == Some(rows),
{
    let f = node_weight_row_encoder();
    let p = node_weight_row_parser();
    let body = concat_map(rows, f);
    lemma_parse_arr_enc(rows.len(), body);
    assert forall|k: int, t2: Seq<u8>| 0 <= k < rows.len() implies #[trigger] p(f(rows[k]) + t2)
        == Some((rows[k], t2)) by {
        lemma_parse_node_weight_row_enc(rows[k], t2);
    }
    lemma_parse_rows_enc(rows, Seq::empty(), f, p);
    assert(body + Seq::<u8>::empty() =~= body);
}

pub proof fn lemma_parse_connection_row_enc(r: ConnectionRowV, rest: Seq<u8>)
    requires
        connection_row_wf(r),
    ensures
        parse_connection_row(enc_connection_row(r) + rest) == Some((r, rest)),
{
    let x2 = enc_str(r.target) + rest;
    let x1 = enc_str(r.source) + x2;
    assert(enc_connection_row(r) + rest =~= enc_arr(2) + x1);
    lemma_parse_arr_enc(2, x1);
    lemma_parse_str_enc(r.source, x2);
    lemma_parse_str_enc(r.target, rest);
    assert(ConnectionRowV { source: r.source, target: r.target } =~= r);
}

/// Every well-formed connection table decodes back to what was encoded.
pub proof fn lemma_connection_table_roundtrip(rows: Seq<ConnectionRowV>)
    requires
        connection_table_wf(rows),
    ensures
        parse_connection_table(enc_connection_table(rows)) == Some(rows),
{
    let f = connection_row_encoder();
    let p = connection_row_parser();
    let body = concat_map(rows, f);
    lemma_parse_arr_enc(rows.len(), body);
    assert forall|k: int, t2: Seq<u8>| 0 <= k < rows.len() implies #[trigger] p(f(rows[k]) + t2)
        == Some((rows[k], t2)) by {
        lemma_parse_connection_row_enc(rows[k], t2);
    }
    lemma_parse_rows_enc(rows, Seq::empty(), f, p);
    assert(body + Seq::<u8>::empty() =~= body);
}

pub proof fn lemma_parse_id_row_enc(id: Seq<u8>, rest: Seq<u8>)
    requires
        id.len() <= MAX_WIRE_LEN,
    ensures
        parse_id_row(enc_id_row(id) + rest) == Some((id, rest)),
{
    let x1 = enc_str(id) + rest;
    assert(enc_id_row(id) + rest =~= enc_arr(1) + x1);
    lemma_parse_arr_enc(1, x1);
    lemma_parse_str_enc(id, rest);
}

/// Every well-formed single-id table decodes back to what was encoded.
pub proof fn lemma_id_table_roundtrip(rows: Seq<Seq<u8>>)
    requires
        id_table_wf(rows),
    ensures
        parse_id_table(enc_id_table(rows)) == Some(rows),
{
    let f = id_row_encoder();
    let p = id_row_parser();
    let body = concat_map(rows, f);
    lemma_parse_arr_enc(rows.len(), body);
    assert forall|k: int, t2: Seq<u8>| 0 <= k < rows.len() implies #[trigger] p(f(rows[k]) + t2)
        == Some((rows[k], t2)) by {
        lemma_parse_id_row_enc(rows[k], t2);
    }
    lemma_parse_rows_enc(rows, Seq::empty(), f, p);
    assert(body + Seq::<u8>::empty() =~= body);
}

proof fn lemma_parse_nils_enc(n: nat, rest: Seq<u8>)
    ensures
        parse_nils(enc_nils(n) + rest, n) == Some(rest),
    decreases n,
{
    if n == 0 {
        assert(enc_nils(n) + rest =~= rest);
    } else {
        let inner = enc_nils((n - 1) as nat) + rest;
        assert(enc_nils(n) + rest =~= enc_nil() + inner);
        lemma_parse_nil_enc(inner);
        lemma_parse_nils_enc((n - 1) as nat, rest);
    }
}

/// Every acknowledgement table decodes back to its row count.
pub proof fn lemma_ack_table_roundtrip(n: nat)
    requires
        n <= MAX_WIRE_LEN,
    ensures
        parse_ack_table(enc_ack_table(n)) == Some(n),
{
    let body = enc_nils(n);
    lemma_parse_arr_enc(n, body);
    assert(body + Seq::<u8>::empty() =~= body);
    lemma_parse_nils_enc(n, Seq::empty());
}

// ---------------------------------------------------------------------------
// Executable table encoders
// ---------------------------------------------------------------------------
pub fn encode_score_table(rows: &Vec<ScoreRow>) -> (out: Vec<u8>)
    requires
        score_table_wf(score_rows_view(rows@)),
    ensures
        out@ == enc_score_table(score_rows_view(rows@)),
{
    let ghost v = score_rows_view(rows@);
    let mut out: Vec<u8> = Vec::new();
    emit_arr_hdr(&mut out, rows.len());
    let n = rows.len();
    let mut k: usize = 0;
    while k < n
        invariant
            n == rows@.len(),
            v == score_rows_view(rows@),
            score_table_wf(v),
            k <= n,
            out@ == enc_arr(n as nat) + concat_map(v.take(k as int), score_row_encoder()),
        decreases n - k,
    {
        proof {
            assert(v[k as int] == rows@[k as int]@);
            assert(score_row_wf(v[k as int]));
        }
        let r = &rows[k];
        emit_arr_hdr(&mut out, 3);
        emit_str(&mut out, r.ego.as_slice());
        emit_str(&mut out, r.target.as_slice());
        emit_f64_bits(&mut out, r.score_bits);
        proof {
            lemma_concat_map_push(v.take(k as int), score_row_encoder(), v[k as int]);
            assert(v.take(k as int + 1) =~= v.take(k as int).push(v[k as int]));
            assert(out@ =~= enc_arr(n as nat) + concat_map(
                v.take(k as int + 1),
                score_row_encoder(),
            ));
        }
        k = k + 1;
    }
    proof {
        assert(v.take(n as int) =~= v);
    }
    out
}

pub fn encode_node_weight_table(rows: &Vec<NodeWeightRow>) -> (out: Vec<u8>)
    requires
        node_weight_table_wf(node_weight_rows_view(rows@)),
    ensures
        out@ == enc_node_weight_table(node_weight_rows_view(rows@)),
{
    let ghost v = node_weight_rows_view(rows@);
    let mut out: Vec<u8> = Vec::new();
    emit_arr_hdr(&mut out, rows.len());
    let n = rows.len();
    let mut k: usize = 0;
    while k < n
        invariant
            n == rows@.len(),
            v == node_weight_rows_view(rows@),
            node_weight_table_wf(v),
            k <= n,
            out@ == enc_arr(n as nat) + concat_map(v.take(k as int), node_weight_row_encoder()),
        decreases n - k,
    {
        proof {
            assert(v[k as int] == rows@[k as int]@);
            assert(node_weight_row_wf(v[k as int]));
        }
        let r = &rows[k];
        emit_arr_hdr(&mut out, 2);
        emit_str(&mut out, r.node.as_slice());
        emit_f64_bits(&mut out, r.weight_bits);
        proof {
            lemma_concat_map_push(v.take(k as int), node_weight_row_encoder(), v[k as int]);
            assert(v.take(k as int + 1) =~= v.take(k as int).push(v[k as int]));
            assert(out@ =~= enc_arr(n as nat) + concat_map(
                v.take(k as int + 1),
                node_weight_row_encoder(),
            ));
        }
        k = k + 1;
    }
    proof {
        assert(v.take(n as int) =~= v);
    }
    out
}

pub fn encode_connection_table(rows: &Vec<ConnectionRow>) -> (out: Vec<u8>)
    requires
        connection_table_wf(connection_rows_view(rows@)),
    ensures
        out@ == enc_connection_table(connection_rows_view(rows@)),
{
    let ghost v = connection_rows_view(rows@);
    let mut out: Vec<u8> = Vec::new();
    emit_arr_hdr(&mut out, rows.len());
    let n = rows.len();
    let mut k: usize = 0;
    while k < n
        invariant
            n == rows@.len(),
            v == connection_rows_view(rows@),
            connection_table_wf(v),
            k <= n,
            out@ == enc_arr(n as nat) + concat_map(v.take(k as int), connection_row_encoder()),
        decreases n - k,
    {
        proof {
            assert(v[k as int] == rows@[k as int]@);
            assert(connection_row_wf(v[k as int]));
        }
        let r = &rows[k];
        emit_arr_hdr(&mut out, 2);
        emit_str(&mut out, r.source.as_slice());
        emit_str(&mut out, r.target.as_slice());
        proof {
            lemma_concat_map_push(v.take(k as int), connection_row_encoder(), v[k as int]);
            assert(v.take(k as int + 1) =~= v.take(k as int).push(v[k as int]));
            assert(out@ =~= enc_arr(n as nat) + concat_map(
                v.take(k as int + 1),
                connection_row_encoder(),
            ));
        }
        k = k + 1;
    }
    proof {
        assert(v.take(n as int) =~= v);
    }
    out
}

pub fn encode_id_table(rows: &Vec<Vec<u8>>) -> (out: Vec<u8>)
    requires
        id_table_wf(ids_view(rows@)),
    ensures
        out@ == enc_id_table(ids_view(rows@)),
{
    let ghost v = ids_view(rows@);
    let mut out: Vec<u8> = Vec::new();
    emit_arr_hdr(&mut out, rows.len());
    let n = rows.len();
    let mut k: usize = 0;
    while k < n
        invariant
            n == rows@.len(),
            v == ids_view(rows@),
            id_table_wf(v),
            k <= n,
            out@ == enc_arr(n as nat) + concat_map(v.take(k as int), id_row_encoder()),
        decreases n - k,
    {
        proof {
            assert(v[k as int] == rows@[k as int]@);
            assert(v[k as int].len() <= MAX_WIRE_LEN);
        }
        emit_arr_hdr(&mut out, 1);
        emit_str(&mut out, rows[k].as_slice());
        proof {
            lemma_concat_map_push(v.take(k as int), id_row_encoder(), v[k as int]);
            assert(v.take(k as int + 1) =~= v.take(k as int).push(v[k as int]));
            assert(out@ =~= enc_arr(n as nat) + concat_map(v.take(k as int + 1), id_row_encoder()));
        }
        k = k + 1;
    }
    proof {
        assert(v.take(n as int) =~= v);
    }
    out
}

proof fn lemma_enc_nils_snoc(n: nat)
    ensures
        enc_nils(n + 1) == enc_nils(n) + enc_nil(),
    decreases n,
{
    if n == 0 {
        assert(enc_nils(1) =~= enc_nils(0) + enc_nil());
    } else {
        lemma_enc_nils_snoc((n - 1) as nat);
        assert(enc_nils(n + 1) =~= enc_nils(n) + enc_nil());
    }
}

pub fn encode_ack_table(n: usize) -> (out: Vec<u8>)
    requires
        n <= MAX_WIRE_LEN,
    ensures
        out@ == enc_ack_table(n as nat),
{
    let mut out: Vec<u8> = Vec::new();
    emit_arr_hdr(&mut out, n);
    let mut k: usize = 0;
    while k < n
        invariant
            k <= n,
            out@ == enc_arr(n as nat) + enc_nils(k as nat),
        decreases n - k,
    {
        emit_nil(&mut out);
        proof {
            lemma_enc_nils_snoc(k as nat);
        }
        k = k + 1;
    }
    out
}

// ---------------------------------------------------------------------------
// Executable row readers
// ---------------------------------------------------------------------------
fn rd_score_row(buf: &[u8], i: usize) -> (r: Option<(ScoreRow, usize)>)
    requires
        i <= buf@.len(),
    ensures
        match r {
            Some(p) => {
                &&& p.1 <= buf@.len()
                &&& parse_score_row(buf@.skip(i as int)) == Some((p.0@, buf@.skip(p.1 as int)))
            },
            None => parse_score_row(buf@.skip(i as int)) is None,
        },
{
    match rd_arr_hdr(buf, i) {
        None => None,
        Some((c, i1)) => {
            if c != 3 {
                return None;
            }
            match rd_str(buf, i1) {
                None => None,
                Some((ego, i2)) => match rd_str(buf, i2) {
                    None => None,
                    Some((target, i3)) => match rd_f64_bits(buf, i3) {
                        None => None,
                        Some((bits, i4)) => Some((ScoreRow { ego, target, score_bits: bits }, i4)),
                    },
                },
            }
        },
    }
}

fn rd_node_weight_row(buf: &[u8], i: usize) -> (r: Option<(NodeWeightRow, usize)>)
    requires
        i <= buf@.len(),
    ensures
        match r {
            Some(p) => {
                &&& p.1 <= buf@.len()
                &&& parse_node_weight_row(buf@.skip(i as int)) == Some(
                    (p.0@, buf@.skip(p.1 as int)),
                )
            },
            None => parse_node_weight_row(buf@.skip(i as int)) is None,
        },
{
    match rd_arr_hdr(buf, i) {
        None => None,
        Some((c, i1)) => {
            if c != 2 {
                return None;
            }
            match rd_str(buf, i1) {
                None => None,
                Some((node, i2)) => match rd_f64_bits(buf, i2) {
                    None => None,
                    Some((bits, i3)) => Some((NodeWeightRow { node, weight_bits: bits }, i3)),
                },
            }
        },
    }
}

fn rd_connection_row(buf: &[u8], i: usize) -> (r: Option<(ConnectionRow, usize)>)
    requires
        i <= buf@.len(),
    ensures
        match r {
            Some(p) => {
                &&& p.1 <= buf@.len()
                &&& parse_connection_row(buf@.skip(i as int)) == Some(
                    (p.0@, buf@.skip(p.1 as int)),
                )
            },
            None => parse_connection_row(buf@.skip(i as int)) is None,
        },
{
    match rd_arr_hdr(buf, i) {
        None => None,
        Some((c, i1)) => {
            if c != 2 {
                return None;
            }
            match rd_str(buf, i1) {
                None => None,
                Some((source, i2)) => match rd_str(buf, i2) {
                    None => None,
                    Some((target, i3)) => Some((ConnectionRow { source, target }, i3)),
                },
            }
        },
    }
}

// ---------------------------------------------------------------------------
// Reply classification
// ---------------------------------------------------------------------------
/// Why a reply could not be decoded as the expected table.
#[derive(Debug, Clone, PartialEq, Eq)]
pub enum ReplyError {
    /// The reply was not the expected table, but it was a string: the
    /// service reported this error message.
    Server(Vec<u8>),
    /// The reply was neither the expected table nor a string.
    Malformed,
}

fn try_decode_score_rows(buf: &[u8]) -> (r: Option<Vec<ScoreRow>>)
    ensures
        match r {
            Some(rows) => parse_score_table(buf@) == Some(score_rows_view(rows@)),
            None => parse_score_table(buf@) is None,
        },
{
    proof {
        assert(buf@.skip(0) =~= buf@);
    }
    match rd_arr_hdr(buf, 0) {
        None => None,
        Some((n, start)) => {
            let ghost p = score_row_parser();
            let ghost t0 = buf@.skip(start as int);
            let mut rows: Vec<ScoreRow> = Vec::new();
            let mut i: usize = start;
            let mut k: usize = 0;
            while k < n
                invariant
                    p == score_row_parser(),
                    k <= n,
                    i <= buf@.len(),
                    rows@.len() == k,
                    parse_arr_hdr(buf@) == Some((n as nat, t0)),
                    parse_rows(t0, n as nat, p) == chain(
                        score_rows_view(rows@),
                        parse_rows(buf@.skip(i as int), (n - k) as nat, p),
                    ),
                decreases n - k,
            {
                match rd_score_row(buf, i) {
                    None => {
                        proof {
                            assert(p(buf@.skip(i as int)) == parse_score_row(buf@.skip(i as int)));
                        }
                        return None;
                    },
                    Some((row, j)) => {
                        proof {
                            assert(p(buf@.skip(i as int)) == parse_score_row(buf@.skip(i as int)));
                            lemma_parse_rows_step(
                                buf@.skip(i as int),
                                (n - k) as nat,
                                p,
                                row@,
                                buf@.skip(j as int),
                            );
                            lemma_chain_chain(
                                score_rows_view(rows@),
                                seq![row@],
                                parse_rows(buf@.skip(j as int), (n - k - 1) as nat, p),
                            );
                            assert(score_rows_view(rows@) + seq![row@] =~= score_rows_view(
                                rows@.push(row),
                            ));
                        }
                        rows.push(row);
                        i = j;
                        k = k + 1;
                    },
                }
            }
            proof {
                assert(score_rows_view(rows@) + Seq::<ScoreRowV>::empty() =~= score_rows_view(
                    rows@,
                ));
            }
            Some(rows)
        },
    }
}

/// Decode a reply as a score table; when that fails, read the reply as the
/// service's error string instead.
pub fn decode_score_table(buf: &[u8]) -> (r: Result<Vec<ScoreRow>, ReplyError>)
    ensures
        match r {
            Ok(rows) => parse_score_table(buf@) == Some(score_rows_view(rows@)),
            Err(e) => parse_score_table(buf@) is None && (match e {
                ReplyError::Server(m) => parse_str_value(buf@) == Some(m@),
                ReplyError::Malformed => parse_str_value(buf@) is None,
            }),
        },
{
    match try_decode_score_rows(buf) {
        Some(rows) => Ok(rows),
        None => {
            proof {
                assert(buf@.skip(0) =~= buf@);
            }
            match rd_str(buf, 0) {
                Some((m, _)) => Err(ReplyError::Server(m)),
                None => Err(ReplyError::Malformed),
            }
        },
    }
}

fn try_decode_node_weight_rows(buf: &[u8]) -> (r: Option<Vec<NodeWeightRow>>)
    ensures
        match r {
            Some(rows) => parse_node_weight_table(buf@) == Some(node_weight_rows_view(rows@)),
            None => parse_node_weight_table(buf@) is None,
        },
{
    proof {
        assert(buf@.skip(0) =~= buf@);
    }
    match rd_arr_hdr(buf, 0) {
        None => None,
        Some((n, start)) => {
            let ghost p = node_weight_row_parser();
            let ghost t0 = buf@.skip(start as int);
            let mut rows: Vec<NodeWeightRow> = Vec::new();
            let mut i: usize = start;
            let mut k: usize = 0;
            while k < n
                invariant
                    p == node_weight_row_parser(),
                    k <= n,
                    i <= buf@.len(),
                    rows@.len() == k,
                    parse_arr_hdr(buf@) == Some((n as nat, t0)),
                    parse_rows(t0, n as nat, p) == chain(
                        node_weight_rows_view(rows@),
                        parse_rows(buf@.skip(i as int), (n - k) as nat, p),
                    ),
                decreases n - k,
            {
                match rd_node_weight_row(buf, i) {
                    None => {
                        proof {
                            assert(p(buf@.skip(i as int)) == parse_node_weight_row(buf@.skip(i as int)));
                        }
                        return None;
                    },
                    Some((row, j)) => {
                        proof {
                            assert(p(buf@.skip(i as int)) == parse_node_weight_row(buf@.skip(i as int)));
                            lemma_parse_rows_step(
                                buf@.skip(i as int),
                                (n - k) as nat,
                                p,
                                row@,
                                buf@.skip(j as int),
                            );
                            lemma_chain_chain(
                                node_weight_rows_view(rows@),
                                seq![row@],
                                parse_rows(buf@.skip(j as int), (n - k - 1) as nat, p),
                            );
                            assert(node_weight_rows_view(rows@) + seq![row@]
                                =~= node_weight_rows_view(rows@.push(row)));
                        }
                        rows.push(row);
                        i = j;
                        k = k + 1;
                    },
                }
            }
            proof {
                assert(node_weight_rows_view(rows@) + Seq::<NodeWeightRowV>::empty()
                    =~= node_weight_rows_view(rows@));
            }
            Some(rows)
        },
    }
}

/// Decode a reply as a node-weight table, with the error-string fallback.
pub fn decode_node_weight_table(buf: &[u8]) -> (r: Result<Vec<NodeWeightRow>, ReplyError>)
    ensures
        match r {
            Ok(rows) => parse_node_weight_table(buf@) == Some(node_weight_rows_view(rows@)),
            Err(e) => parse_node_weight_table(buf@) is None && (match e {
                ReplyError::Server(m) => parse_str_value(buf@) == Some(m@),
                ReplyError::Malformed => parse_str_value(buf@) is None,
            }),
        },
{
    match try_decode_node_weight_rows(buf) {
        Some(rows) => Ok(rows),
        None => {
            proof {
                assert(buf@.skip(0) =~= buf@);
            }
            match rd_str(buf, 0) {
                Some((m, _)) => Err(ReplyError::Server(m)),
                None => Err(ReplyError::Malformed),
            }
        },
    }
}

fn try_decode_connection_rows(buf: &[u8]) -> (r: Option<Vec<ConnectionRow>>)
    ensures
        match r {
            Some(rows) => parse_connection_table(buf@) == Some(connection_rows_view(rows@)),
            None => parse_connection_table(buf@) is None,
        },
{
    proof {
        assert(buf@.skip(0) =~= buf@);
    }
    match rd_arr_hdr(buf, 0) {
        None => None,
        Some((n, start)) => {
            let ghost p = connection_row_parser();
            let ghost t0 = buf@.skip(start as int);
            let mut rows: Vec<ConnectionRow> = Vec::new();
            let mut i: usize = start;
            let mut k: usize = 0;
            while k < n
                invariant
                    p == connection_row_parser(),
                    k <= n,
                    i <= buf@.len(),
                    rows@.len() == k,
                    parse_arr_hdr(buf@) == Some((n as nat, t0)),
                    parse_rows(t0, n as nat, p) == chain(
                        connection_rows_view(rows@),
                        parse_rows(buf@.skip(i as int), (n - k) as nat, p),
                    ),
                decreases n - k,
            {
                match rd_connection_row(buf, i) {
                    None => {
                        proof {
                            assert(p(buf@.skip(i as int)) == parse_connection_row(buf@.skip(i as int)));
                        }
                        return None;
                    },
                    Some((row, j)) => {
                        proof {
                            assert(p(buf@.skip(i as int)) == parse_connection_row(buf@.skip(i as int)));
                            lemma_parse_rows_step(
                                buf@.skip(i as int),
                                (n - k) as nat,
                                p,
                                row@,
                                buf@.skip(j as int),
                            );
                            lemma_chain_chain(
                                connection_rows_view(rows@),
                                seq![row@],
                                parse_rows(buf@.skip(j as int), (n - k - 1) as nat, p),
                            );
                            assert(connection_rows_view(rows@) + seq![row@]
                                =~= connection_rows_view(rows@.push(row)));
                        }
                        rows.push(row);
                        i = j;
                        k = k + 1;
                    },
                }
            }
            proof {
                assert(connection_rows_view(rows@) + Seq::<ConnectionRowV>::empty()
                    =~= connection_rows_view(rows@));
            }
            Some(rows)
        },
    }
}

/// Decode a reply as a connection table, with the error-string fallback.
pub fn decode_connection_table(buf: &[u8]) -> (r: Result<Vec<ConnectionRow>, ReplyError>)
    ensures
        match r {
            Ok(rows) => parse_connection_table(buf@) == Some(connection_rows_view(rows@)),
            Err(e) => parse_connection_table(buf@) is None && (match e {
                ReplyError::Server(m) => parse_str_value(buf@) == Some(m@),
                ReplyError::Malformed => parse_str_value(buf@) is None,
            }),
        },
{
    match try_decode_connection_rows(buf) {
        Some(rows) => Ok(rows),
        None => {
            proof {
                assert(buf@.skip(0) =~= buf@);
            }
            match rd_str(buf, 0) {
                Some((m, _)) => Err(ReplyError::Server(m)),
                None => Err(ReplyError::Malformed),
            }
        },
    }
}

fn try_decode_id_rows(buf: &[u8]) -> (r: Option<Vec<Vec<u8>>>)
    ensures
        match r {
            Some(rows) => parse_id_table(buf@) == Some(ids_view(rows@)),
            None => parse_id_table(buf@) is None,
        },
{
    proof {
        assert(buf@.skip(0) =~= buf@);
    }
    match rd_arr_hdr(buf, 0) {
        None => None,
        Some((n, start)) => {
            let ghost p = id_row_parser();
            let ghost t0 = buf@.skip(start as int);
            let mut rows: Vec<Vec<u8>> = Vec::new();
            let mut i: usize = start;
            let mut k: usize = 0;
            while k < n
                invariant
                    p == id_row_parser(),
                    k <= n,
                    i <= buf@.len(),
                    rows@.len() == k,
                    parse_arr_hdr(buf@) == Some((n as nat, t0)),
                    parse_rows(t0, n as nat, p) == chain(
                        ids_view(rows@),
                        parse_rows(buf@.skip(i as int), (n - k) as nat, p),
                    ),
                decreases n - k,
            {
                match rd_id_row(buf, i) {
                    None => {
                        proof {
                            assert(p(buf@.skip(i as int)) == parse_id_row(buf@.skip(i as int)));
                        }
                        return None;
                    },
                    Some((row, j)) => {
                        proof {
                            assert(p(buf@.skip(i as int)) == parse_id_row(buf@.skip(i as int)));
                            lemma_parse_rows_step(
                                buf@.skip(i as int),
                                (n - k) as nat,
                                p,
                                row@,
                                buf@.skip(j as int),
                            );
                            lemma_chain_chain(
                                ids_view(rows@),
                                seq![row@],
                                parse_rows(buf@.skip(j as int), (n - k - 1) as nat, p),
                            );
                            assert(ids_view(rows@) + seq![row@] =~= ids_view(rows@.push(row)));
                        }
                        rows.push(row);
                        i = j;
                        k = k + 1;
                    },
                }
            }
            proof {
                assert(ids_view(rows@) + Seq::<Seq<u8>>::empty() =~= ids_view(rows@));
            }
            Some(rows)
        },
    }
}

/// Decode a reply as a single-id table, with the error-string fallback.
pub fn decode_id_table(buf: &[u8]) -> (r: Result<Vec<Vec<u8>>, ReplyError>)
    ensures
        match r {
            Ok(rows) => parse_id_table(buf@) == Some(ids_view(rows@)),
            Err(e) => parse_id_table(buf@) is None && (match e {
                ReplyError::Server(m) => parse_str_value(buf@) == Some(m@),
                ReplyError::Malformed => parse_str_value(buf@) is None,
            }),
        },
{
    match try_decode_id_rows(buf) {
        Some(rows) => Ok(rows),
        None => {
            proof {
                assert(buf@.skip(0) =~= buf@);
            }
            match rd_str(buf, 0) {
                Some((m, _)) => Err(ReplyError::Server(m)),
                None => Err(ReplyError::Malformed),
            }
        },
    }
}

fn try_decode_ack_rows(buf: &[u8]) -> (r: Option<usize>)
    ensures
        match r {
            Some(n) => parse_ack_table(buf@) == Some(n as nat),
            None => parse_ack_table(buf@) is None,
        },
{
    proof {
        assert(buf@.skip(0) =~= buf@);
    }
    match rd_arr_hdr(buf, 0) {
        None => None,
        Some((n, start)) => {
            let ghost t0 = buf@.skip(start as int);
            let mut i: usize = start;
            let mut k: usize = 0;
            while k < n
                invariant
                    k <= n,
                    i <= buf@.len(),
                    parse_arr_hdr(buf@) == Some((n as nat, t0)),
                    parse_nils(t0, n as nat) == parse_nils(
                        buf@.skip(i as int),
                        (n - k) as nat,
                    ),
                decreases n - k,
            {
                match rd_nil(buf, i) {
                    None => {
                        return None;
                    },
                    Some(j) => {
                        i = j;
                        k = k + 1;
                    },
                }
            }
            Some(n)
        },
    }
}

/// Decode an acknowledgement reply (a table of empty rows), with the
/// error-string fallback; yields the number of rows.
pub fn decode_ack_table(buf: &[u8]) -> (r: Result<usize, ReplyError>)
    ensures
        match r {
            Ok(n) => parse_ack_table(buf@) == Some(n as nat),
            Err(e) => parse_ack_table(buf@) is None && (match e {
                ReplyError::Server(m) => parse_str_value(buf@) == Some(m@),
                ReplyError::Malformed => parse_str_value(buf@) is None,
            }),
        },
{
    match try_decode_ack_rows(buf) {
        Some(n) => Ok(n),
        None => {
            proof {
                assert(buf@.skip(0) =~= buf@);
            }
            match rd_str(buf, 0) {
                Some((m, _)) => Err(ReplyError::Server(m)),
                None => Err(ReplyError::Malformed),
            }
        },
    }
}

/// Decode a reply that is expected to be a single string, as the version
/// probe and the zero-recalculation command do; there is no fallback.
pub fn decode_string_reply(buf: &[u8]) -> (r: Option<Vec<u8>>)
    ensures
        match r {
            Some(s) => parse_str_value(buf@) == Some(s@),
            None => parse_str_value(buf@) is None,
        },
{
    proof {
        assert(buf@.skip(0) =~= buf@);
    }
    match rd_str(buf, 0) {
        Some((s, _)) => Some(s),
        None => None,
    }
}

fn rd_id_row(buf: &[u8], i: usize) -> (r: Option<(Vec<u8>, usize)>)
    requires
        i <= buf@.len(),
    ensures
        match r {
            Some(p) => {
                &&& p.1 <= buf@.len()
                &&& parse_id_row(buf@.skip(i as int)) == Some((p.0@, buf@.skip(p.1 as int)))
            },
            None => parse_id_row(buf@.skip(i as int)) is None,
        },
{
    match rd_arr_hdr(buf, i) {
        None => None,
        Some((c, i1)) => {
            if c != 1 {
                return None;
            }
            rd_str(buf, i1)
        },
    }
}

} // verus!
