//! Construction of query payloads.
//!
//! Every operation of the scoring service is asked through one binary
//! message: a pair of a filter tuple (or a bare command string) and a unit
//! options element, optionally wrapped in a context envelope that scopes
//! the query to a named partition of the graph.  Each builder here returns
//! the exact bytes of one such message.
//!
//! Identifiers, prefixes and context names are byte strings; scores and
//! weights are 64-bit floats carried as their raw IEEE-754 bit patterns.
use vstd::prelude::*;
use crate::enc::{MAX_WIRE_LEN, enc_arr, enc_bool, enc_byte_arr, enc_f64_bits, enc_nil, enc_opt_int, enc_str, emit_arr_hdr, emit_bool, emit_byte_arr, emit_f64_bits, emit_nil, emit_opt_int, emit_str};

verus! {

/// The longest variable string (identifier, prefix, or context name) a
/// query accepts; it keeps every payload within the 32-bit wire lengths.
pub const MAX_FIELD_LEN: usize = 0x1000_0000;

/// Bit pattern of the lowest finite 64-bit float: the inactive upper score
/// bound.
pub const F64_MIN_BITS: u64 = 0xffef_ffff_ffff_ffff;

/// Bit pattern of the highest finite 64-bit float: the inactive lower score
/// bound.
pub const F64_MAX_BITS: u64 = 0x7fef_ffff_ffff_ffff;

pub open spec fn field_ok(s: Seq<u8>) -> bool {
    s.len() <= MAX_FIELD_LEN
}

proof fn lemma_enc_str_len(s: Seq<u8>)
    ensures
        enc_str(s).len() <= s.len() + 5,
{
}

// ---------------------------------------------------------------------------
// Keywords of the filter language
// ---------------------------------------------------------------------------
/// The bytes of `"src"`.
pub open spec fn kw_src() -> Seq<u8> {
    seq![115u8, 114u8, 99u8]
}

/// The bytes of `"dest"`.
pub open spec fn kw_dest() -> Seq<u8> {
    seq![100u8, 101u8, 115u8, 116u8]
}

/// The bytes of `"target"`.
pub open spec fn kw_target() -> Seq<u8> {
    seq![116u8, 97u8, 114u8, 103u8, 101u8, 116u8]
}

/// The bytes of `"hide_personal"`.
pub open spec fn kw_hide_personal() -> Seq<u8> {
    seq![104u8, 105u8, 100u8, 101u8, 95u8, 112u8, 101u8, 114u8, 115u8, 111u8, 110u8, 97u8, 108u8]
}

/// The bytes of `"score"`.
pub open spec fn kw_score() -> Seq<u8> {
    seq![115u8, 99u8, 111u8, 114u8, 101u8]
}

/// The bytes of `"limit"`.
pub open spec fn kw_limit() -> Seq<u8> {
    seq![108u8, 105u8, 109u8, 105u8, 116u8]
}

/// The bytes of `"context"`.
pub open spec fn kw_context() -> Seq<u8> {
    seq![99u8, 111u8, 110u8, 116u8, 101u8, 120u8, 116u8]
}

/// The bytes of `"="`.
pub open spec fn op_eq() -> Seq<u8> {
    seq![61u8]
}

/// The bytes of `"like"`.
pub open spec fn op_like() -> Seq<u8> {
    seq![108u8, 105u8, 107u8, 101u8]
}

/// The bytes of `"<"`.
pub open spec fn op_lt() -> Seq<u8> {
    seq![60u8]
}

/// The bytes of `"<="`.
pub open spec fn op_le() -> Seq<u8> {
    seq![60u8, 61u8]
}

/// The bytes of `">"`.
pub open spec fn op_gt() -> Seq<u8> {
    seq![62u8]
}

/// The bytes of `">="`.
pub open spec fn op_ge() -> Seq<u8> {
    seq![62u8, 61u8]
}

/// The bytes of `"delete"`.
pub open spec fn op_delete() -> Seq<u8> {
    seq![100u8, 101u8, 108u8, 101u8, 116u8, 101u8]
}

/// The bytes of `"null"`.
pub open spec fn lit_null() -> Seq<u8> {
    seq![110u8, 117u8, 108u8, 108u8]
}

/// The bytes of `"ver"`.
pub open spec fn cmd_ver() -> Seq<u8> {
    seq![118u8, 101u8, 114u8]
}

/// The bytes of `"nodes"`.
pub open spec fn cmd_nodes() -> Seq<u8> {
    seq![110u8, 111u8, 100u8, 101u8, 115u8]
}

/// The bytes of `"edges"`.
pub open spec fn cmd_edges() -> Seq<u8> {
    seq![101u8, 100u8, 103u8, 101u8, 115u8]
}

/// The bytes of `"zerorec"`.
pub open spec fn cmd_zerorec() -> Seq<u8> {
    seq![122u8, 101u8, 114u8, 111u8, 114u8, 101u8, 99u8]
}

/// The bytes of `"for_beacons_global"`.
pub open spec fn cmd_for_beacons_global() -> Seq<u8> {
    seq![102u8, 111u8, 114u8, 95u8, 98u8, 101u8, 97u8, 99u8, 111u8, 110u8, 115u8, 95u8, 103u8, 108u8, 111u8, 98u8, 97u8, 108u8]
}

/// The bytes of `"connected"`.
pub open spec fn kw_connected() -> Seq<u8> {
    seq![99u8, 111u8, 110u8, 110u8, 101u8, 99u8, 116u8, 101u8, 100u8]
}

/// The bytes of `"gravity"`.
pub open spec fn kw_gravity() -> Seq<u8> {
    seq![103u8, 114u8, 97u8, 118u8, 105u8, 116u8, 121u8]
}

/// The bytes of `"gravity_nodes"`.
pub open spec fn kw_gravity_nodes() -> Seq<u8> {
    seq![103u8, 114u8, 97u8, 118u8, 105u8, 116u8, 121u8, 95u8, 110u8, 111u8, 100u8, 101u8, 115u8]
}

fn emit_kw_src(out: &mut Vec<u8>)
    ensures
        final(out)@ == old(out)@ + enc_str(kw_src()),
{
    out.push(0xa3);
    out.push(115);
    out.push(114);
    out.push(99);
    proof {
        assert(out@ =~= old(out)@ + enc_str(kw_src()));
    }
}

fn emit_kw_dest(out: &mut Vec<u8>)
    ensures
        final(out)@ == old(out)@ + enc_str(kw_dest()),
{
    out.push(0xa4);
    out.push(100);
    out.push(101);
    out.push(115);
    out.push(116);
    proof {
        assert(out@ =~= old(out)@ + enc_str(kw_dest()));
    }
}

fn emit_kw_target(out: &mut Vec<u8>)
    ensures
        final(out)@ == old(out)@ + enc_str(kw_target()),
{
    out.push(0xa6);
    out.push(116);
    out.push(97);
    out.push(114);
    out.push(103);
    out.push(101);
    out.push(116);
    proof {
        assert(out@ =~= old(out)@ + enc_str(kw_target()));
    }
}

fn emit_kw_hide_personal(out: &mut Vec<u8>)
    ensures
        final(out)@ == old(out)@ + enc_str(kw_hide_personal()),
{
    out.push(0xad);
    out.push(104);
    out.push(105);
    out.push(100);
    out.push(101);
    out.push(95);
    out.push(112);
    out.push(101);
    out.push(114);
    out.push(115);
    out.push(111);
    out.push(110);
    out.push(97);
    out.push(108);
    proof {
        assert(out@ =~= old(out)@ + enc_str(kw_hide_personal()));
    }
}

fn emit_kw_score(out: &mut Vec<u8>)
    ensures
        final(out)@ == old(out)@ + enc_str(kw_score()),
{
    out.push(0xa5);
    out.push(115);
    out.push(99);
    out.push(111);
    out.push(114);
    out.push(101);
    proof {
        assert(out@ =~= old(out)@ + enc_str(kw_score()));
    }
}

fn emit_kw_limit(out: &mut Vec<u8>)
    ensures
        final(out)@ == old(out)@ + enc_str(kw_limit()),
{
    out.push(0xa5);
    out.push(108);
    out.push(105);
    out.push(109);
    out.push(105);
    out.push(116);
    proof {
        assert(out@ =~= old(out)@ + enc_str(kw_limit()));
    }
}

fn emit_kw_context(out: &mut Vec<u8>)
    ensures
        final(out)@ == old(out)@ + enc_str(kw_context()),
{
    out.push(0xa7);
    out.push(99);
    out.push(111);
    out.push(110);
    out.push(116);
    out.push(101);
    out.push(120);
    out.push(116);
    proof {
        assert(out@ =~= old(out)@ + enc_str(kw_context()));
    }
}

fn emit_op_eq(out: &mut Vec<u8>)
    ensures
        final(out)@ == old(out)@ + enc_str(op_eq()),
{
    out.push(0xa1);
    out.push(61);
    proof {
        assert(out@ =~= old(out)@ + enc_str(op_eq()));
    }
}

fn emit_op_like(out: &mut Vec<u8>)
    ensures
        final(out)@ == old(out)@ + enc_str(op_like()),
{
    out.push(0xa4);
    out.push(108);
    out.push(105);
    out.push(107);
    out.push(101);
    proof {
        assert(out@ =~= old(out)@ + enc_str(op_like()));
    }
}

fn emit_op_lt(out: &mut Vec<u8>)
    ensures
        final(out)@ == old(out)@ + enc_str(op_lt()),
{
    out.push(0xa1);
    out.push(60);
    proof {
        assert(out@ =~= old(out)@ + enc_str(op_lt()));
    }
}

fn emit_op_le(out: &mut Vec<u8>)
    ensures
        final(out)@ == old(out)@ + enc_str(op_le()),
{
    out.push(0xa2);
    out.push(60);
    out.push(61);
    proof {
        assert(out@ =~= old(out)@ + enc_str(op_le()));
    }
}

fn emit_op_gt(out: &mut Vec<u8>)
    ensures
        final(out)@ == old(out)@ + enc_str(op_gt()),
{
    out.push(0xa1);
    out.push(62);
    proof {
        assert(out@ =~= old(out)@ + enc_str(op_gt()));
    }
}

fn emit_op_ge(out: &mut Vec<u8>)
    ensures
        final(out)@ == old(out)@ + enc_str(op_ge()),
{
    out.push(0xa2);
    out.push(62);
    out.push(61);
    proof {
        assert(out@ =~= old(out)@ + enc_str(op_ge()));
    }
}

fn emit_op_delete(out: &mut Vec<u8>)
    ensures
        final(out)@ == old(out)@ + enc_str(op_delete()),
{
    out.push(0xa6);
    out.push(100);
    out.push(101);
    out.push(108);
    out.push(101);
    out.push(116);
    out.push(101);
    proof {
        assert(out@ =~= old(out)@ + enc_str(op_delete()));
    }
}

fn emit_lit_null(out: &mut Vec<u8>)
    ensures
        final(out)@ == old(out)@ + enc_str(lit_null()),
{
    out.push(0xa4);
    out.push(110);
    out.push(117);
    out.push(108);
    out.push(108);
    proof {
        assert(out@ =~= old(out)@ + enc_str(lit_null()));
    }
}

fn emit_cmd_ver(out: &mut Vec<u8>)
    ensures
        final(out)@ == old(out)@ + enc_str(cmd_ver()),
{
    out.push(0xa3);
    out.push(118);
    out.push(101);
    out.push(114);
    proof {
        assert(out@ =~= old(out)@ + enc_str(cmd_ver()));
    }
}

fn emit_cmd_nodes(out: &mut Vec<u8>)
    ensures
        final(out)@ == old(out)@ + enc_str(cmd_nodes()),
{
    out.push(0xa5);
    out.push(110);
    out.push(111);
    out.push(100);
    out.push(101);
    out.push(115);
    proof {
        assert(out@ =~= old(out)@ + enc_str(cmd_nodes()));
    }
}

fn emit_cmd_edges(out: &mut Vec<u8>)
    ensures
        final(out)@ == old(out)@ + enc_str(cmd_edges()),
{
    out.push(0xa5);
    out.push(101);
    out.push(100);
    out.push(103);
    out.push(101);
    out.push(115);
    proof {
        assert(out@ =~= old(out)@ + enc_str(cmd_edges()));
    }
}

fn emit_cmd_zerorec(out: &mut Vec<u8>)
    ensures
        final(out)@ == old(out)@ + enc_str(cmd_zerorec()),
{
    out.push(0xa7);
    out.push(122);
    out.push(101);
    out.push(114);
    out.push(111);
    out.push(114);
    out.push(101);
    out.push(99);
    proof {
        assert(out@ =~= old(out)@ + enc_str(cmd_zerorec()));
    }
}

fn emit_cmd_for_beacons_global(out: &mut Vec<u8>)
    ensures
        final(out)@ == old(out)@ + enc_str(cmd_for_beacons_global()),
{
    out.push(0xb2);
    out.push(102);
    out.push(111);
    out.push(114);
    out.push(95);
    out.push(98);
    out.push(101);
    out.push(97);
    out.push(99);
    out.push(111);
    out.push(110);
    out.push(115);
    out.push(95);
    out.push(103);
    out.push(108);
    out.push(111);
    out.push(98);
    out.push(97);
    out.push(108);
    proof {
        assert(out@ =~= old(out)@ + enc_str(cmd_for_beacons_global()));
    }
}

fn emit_kw_connected(out: &mut Vec<u8>)
    ensures
        final(out)@ == old(out)@ + enc_str(kw_connected()),
{
    out.push(0xa9);
    out.push(99);
    out.push(111);
    out.push(110);
    out.push(110);
    out.push(101);
    out.push(99);
    out.push(116);
    out.push(101);
    out.push(100);
    proof {
        assert(out@ =~= old(out)@ + enc_str(kw_connected()));
    }
}

fn emit_kw_gravity(out: &mut Vec<u8>)
    ensures
        final(out)@ == old(out)@ + enc_str(kw_gravity()),
{
    out.push(0xa7);
    out.push(103);
    out.push(114);
    out.push(97);
    out.push(118);
    out.push(105);
    out.push(116);
    out.push(121);
    proof {
        assert(out@ =~= old(out)@ + enc_str(kw_gravity()));
    }
}

fn emit_kw_gravity_nodes(out: &mut Vec<u8>)
    ensures
        final(out)@ == old(out)@ + enc_str(kw_gravity_nodes()),
{
    out.push(0xad);
    out.push(103);
    out.push(114);
    out.push(97);
    out.push(118);
    out.push(105);
    out.push(116);
    out.push(121);
    out.push(95);
    out.push(110);
    out.push(111);
    out.push(100);
    out.push(101);
    out.push(115);
    proof {
        assert(out@ =~= old(out)@ + enc_str(kw_gravity_nodes()));
    }
}
// ---------------------------------------------------------------------------
// Filter clauses
// ---------------------------------------------------------------------------
/// `(field, operator, value)` with a string value.
pub open spec fn filter_sss(f: Seq<u8>, op: Seq<u8>, v: Seq<u8>) -> Seq<u8> {
    enc_arr(3) + enc_str(f) + enc_str(op) + enc_str(v)
}

/// `(field, operator, value)` with a float value.
pub open spec fn filter_ssf(f: Seq<u8>, op: Seq<u8>, bits: u64) -> Seq<u8> {
    enc_arr(3) + enc_str(f) + enc_str(op) + enc_f64_bits(bits)
}

/// `(field, flag)` with a boolean value.
pub open spec fn filter_sb(f: Seq<u8>, b: bool) -> Seq<u8> {
    enc_arr(2) + enc_str(f) + enc_bool(b)
}

/// `(field, count)` with an optional integer value.
pub open spec fn filter_si(f: Seq<u8>, v: Option<int>) -> Seq<u8> {
    enc_arr(2) + enc_str(f) + enc_opt_int(v)
}

// ---------------------------------------------------------------------------
// Query payload shapes
// ---------------------------------------------------------------------------
/// The version probe: the bare string `"ver"`.
pub open spec fn ver_q() -> Seq<u8> {
    enc_str(cmd_ver())
}

/// Single-pair score query: `((src = ego, dest = target), ())`.
pub open spec fn node_score_q(ego: Seq<u8>, target: Seq<u8>) -> Seq<u8> {
    enc_arr(2) + (enc_arr(2) + filter_sss(kw_src(), op_eq(), ego) + filter_sss(
        kw_dest(),
        op_eq(),
        target,
    )) + enc_nil()
}

/// Single-pair score query in the linear-sum variant: the same filters with
/// the trailing `"null"` sentinel selecting the algorithm.
pub open spec fn node_score_linear_sum_q(ego: Seq<u8>, target: Seq<u8>) -> Seq<u8> {
    enc_arr(3) + (enc_arr(2) + filter_sss(kw_src(), op_eq(), ego) + filter_sss(
        kw_dest(),
        op_eq(),
        target,
    )) + enc_nil() + enc_str(lit_null())
}

/// Score listing in the linear-sum variant, for one ego.
pub open spec fn scores_linear_sum_q(ego: Seq<u8>) -> Seq<u8> {
    enc_arr(3) + (enc_arr(1) + filter_sss(kw_src(), op_eq(), ego)) + enc_nil() + enc_str(
        lit_null(),
    )
}

/// Filtered score listing: six filter clauses and the options element.  The
/// lower score bound comes before the upper one, as the wire order has it.
pub open spec fn scores_q(
    ego: Seq<u8>,
    prefix: Seq<u8>,
    hide_personal: bool,
    gop: Seq<u8>,
    gbits: u64,
    lop: Seq<u8>,
    lbits: u64,
    limit: Option<int>,
) -> Seq<u8> {
    enc_arr(2) + enc_arr(6) + filter_sss(kw_src(), op_eq(), ego) + filter_sss(
        kw_target(),
        op_like(),
        prefix,
    ) + filter_sb(kw_hide_personal(), hide_personal) + filter_ssf(kw_score(), gop, gbits)
        + filter_ssf(kw_score(), lop, lbits) + filter_si(kw_limit(), limit) + enc_nil()
}

/// Edge upsert: a bare `(src, dest, weight)` record, not a comparison.
pub open spec fn put_edge_q(src: Seq<u8>, dest: Seq<u8>, weight_bits: u64) -> Seq<u8> {
    enc_arr(2) + (enc_arr(1) + (enc_arr(3) + enc_str(src) + enc_str(dest) + enc_f64_bits(
        weight_bits,
    ))) + enc_nil()
}

/// Edge removal by exact match: `(src delete ego, dest delete target)`.
pub open spec fn delete_edge_q(ego: Seq<u8>, target: Seq<u8>) -> Seq<u8> {
    enc_arr(2) + (enc_arr(2) + filter_sss(kw_src(), op_delete(), ego) + filter_sss(
        kw_dest(),
        op_delete(),
        target,
    )) + enc_nil()
}

/// Node removal: `(src delete ego)` alone.
pub open spec fn delete_node_q(ego: Seq<u8>) -> Seq<u8> {
    enc_arr(2) + (enc_arr(1) + filter_sss(kw_src(), op_delete(), ego)) + enc_nil()
}

/// Gravity query: `(((ego, command, focus), positive_only, limit), ())`,
/// where the command string selects the algorithm variant.
pub open spec fn gravity_q(
    cmd: Seq<u8>,
    ego: Seq<u8>,
    focus: Seq<u8>,
    positive_only: bool,
    limit: Option<int>,
) -> Seq<u8> {
    enc_arr(2) + (enc_arr(3) + (enc_arr(3) + enc_str(ego) + enc_str(cmd) + enc_str(focus))
        + enc_bool(positive_only) + enc_opt_int(limit)) + enc_nil()
}

/// Connected-node query: `(((ego, "connected"),), ())`.
pub open spec fn connected_q(ego: Seq<u8>) -> Seq<u8> {
    enc_arr(2) + (enc_arr(1) + (enc_arr(2) + enc_str(ego) + enc_str(kw_connected()))) + enc_nil()
}

/// A bare command: `(command, ())`.
pub open spec fn cmd_q(cmd: Seq<u8>) -> Seq<u8> {
    enc_arr(2) + enc_str(cmd) + enc_nil()
}

/// The context envelope: `("context", name, inner)`, where the inner
/// payload rides along as an array of its bytes.
pub open spec fn ctx_q(ctx: Seq<u8>, inner: Seq<u8>) -> Seq<u8> {
    enc_arr(3) + enc_str(kw_context()) + enc_str(ctx) + enc_byte_arr(inner)
}

/// An empty context name means the default partition: no envelope.
pub open spec fn with_ctx(ctx: Seq<u8>, inner: Seq<u8>) -> Seq<u8> {
    if ctx.len() == 0 {
        inner
    } else {
        ctx_q(ctx, inner)
    }
}

// ---------------------------------------------------------------------------
// Argument validation for score listings
// ---------------------------------------------------------------------------
/// Rejected queries; each case is caller-correctable.
#[derive(Debug, Clone, Copy, PartialEq, Eq)]
pub enum QueryError {
    /// Both a strict and a non-strict upper score bound were supplied.
    DuplicateUpperBound,
    /// Both a strict and a non-strict lower score bound were supplied.
    DuplicateLowerBound,
}

impl QueryError {
    /// The complaint as the service's callers see it.
    pub fn message(&self) -> (r: &'static str)
        ensures
            *self == QueryError::DuplicateUpperBound ==> r@ == "either lt or lte allowed!"@,
            *self == QueryError::DuplicateLowerBound ==> r@ == "either gt or gte allowed!"@,
    {
        match self {
            QueryError::DuplicateUpperBound => "either lt or lte allowed!",
            QueryError::DuplicateLowerBound => "either gt or gte allowed!",
        }
    }
}

/// Resolve the upper score bound: at most one of `lt`, `lte`; absence means
/// a strict bound at the lowest finite float, which excludes nothing.
pub open spec fn upper_bound_spec(lt: Option<u64>, lte: Option<u64>) -> Option<(Seq<u8>, u64)> {
    match (lt, lte) {
        (Some(b), None) => Some((op_lt(), b)),
        (None, Some(b)) => Some((op_le(), b)),
        (None, None) => Some((op_lt(), F64_MIN_BITS)),
        _ => None,
    }
}

/// Resolve the lower score bound, symmetrically.
pub open spec fn lower_bound_spec(gt: Option<u64>, gte: Option<u64>) -> Option<(Seq<u8>, u64)> {
    match (gt, gte) {
        (Some(b), None) => Some((op_gt(), b)),
        (None, Some(b)) => Some((op_ge(), b)),
        (None, None) => Some((op_gt(), F64_MAX_BITS)),
        _ => None,
    }
}

pub open spec fn prefix_view(s: Option<&[u8]>) -> Seq<u8> {
    match s {
        Some(p) => p@,
        None => Seq::empty(),
    }
}

pub open spec fn opt_int_view(v: Option<i32>) -> Option<int> {
    match v {
        Some(x) => Some(x as int),
        None => None,
    }
}

/// What a score listing sends, or why it refuses: the duplicate-upper
/// complaint wins when both pairs conflict, as the caller-facing order of
/// the checks has it.
pub open spec fn scores_payload_spec(
    ego: Seq<u8>,
    prefix: Seq<u8>,
    hide_personal: bool,
    lt: Option<u64>,
    lte: Option<u64>,
    gt: Option<u64>,
    gte: Option<u64>,
    limit: Option<int>,
    ctx: Seq<u8>,
) -> Result<Seq<u8>, QueryError> {
    match (upper_bound_spec(lt, lte), lower_bound_spec(gt, gte)) {
        (None, _) => Err(QueryError::DuplicateUpperBound),
        (Some(_), None) => Err(QueryError::DuplicateLowerBound),
        (Some(u), Some(g)) => Ok(
            with_ctx(ctx, scores_q(ego, prefix, hide_personal, g.0, g.1, u.0, u.1, limit)),
        ),
    }
}

// ---------------------------------------------------------------------------
// Payload builders
// ---------------------------------------------------------------------------

fn emit_filter_src_eq(out: &mut Vec<u8>, v: &[u8])
    requires
        v@.len() <= MAX_WIRE_LEN,
    ensures
        final(out)@ == old(out)@ + filter_sss(kw_src(), op_eq(), v@),
{
    emit_arr_hdr(out, 3);
    emit_kw_src(out);
    emit_op_eq(out);
    emit_str(out, v);
    proof {
        assert(out@ =~= old(out)@ + filter_sss(kw_src(), op_eq(), v@));
    }
}

fn emit_filter_target_like(out: &mut Vec<u8>, v: &[u8])
    requires
        v@.len() <= MAX_WIRE_LEN,
    ensures
        final(out)@ == old(out)@ + filter_sss(kw_target(), op_like(), v@),
{
    emit_arr_hdr(out, 3);
    emit_kw_target(out);
    emit_op_like(out);
    emit_str(out, v);
    proof {
        assert(out@ =~= old(out)@ + filter_sss(kw_target(), op_like(), v@));
    }
}

fn emit_filter_hide_personal(out: &mut Vec<u8>, b: bool)
    ensures
        final(out)@ == old(out)@ + filter_sb(kw_hide_personal(), b),
{
    emit_arr_hdr(out, 2);
    emit_kw_hide_personal(out);
    emit_bool(out, b);
    proof {
        assert(out@ =~= old(out)@ + filter_sb(kw_hide_personal(), b));
    }
}

fn emit_filter_score_lower(out: &mut Vec<u8>, non_strict: bool, bits: u64)
    ensures
        final(out)@ == old(out)@ + filter_ssf(
            kw_score(),
            if non_strict {
                op_ge()
            } else {
                op_gt()
            },
            bits,
        ),
{
    emit_arr_hdr(out, 3);
    emit_kw_score(out);
    if non_strict {
        emit_op_ge(out);
    } else {
        emit_op_gt(out);
    }
    emit_f64_bits(out, bits);
    proof {
        assert(out@ =~= old(out)@ + filter_ssf(
            kw_score(),
            if non_strict {
                op_ge()
            } else {
                op_gt()
            },
            bits,
        ));
    }
}

fn emit_filter_score_upper(out: &mut Vec<u8>, non_strict: bool, bits: u64)
    ensures
        final(out)@ == old(out)@ + filter_ssf(
            kw_score(),
            if non_strict {
                op_le()
            } else {
                op_lt()
            },
            bits,
        ),
{
    emit_arr_hdr(out, 3);
    emit_kw_score(out);
    if non_strict {
        emit_op_le(out);
    } else {
        emit_op_lt(out);
    }
    emit_f64_bits(out, bits);
    proof {
        assert(out@ =~= old(out)@ + filter_ssf(
            kw_score(),
            if non_strict {
                op_le()
            } else {
                op_lt()
            },
            bits,
        ));
    }
}

fn emit_filter_limit(out: &mut Vec<u8>, limit: Option<i32>)
    ensures
        final(out)@ == old(out)@ + filter_si(kw_limit(), opt_int_view(limit)),
{
    emit_arr_hdr(out, 2);
    emit_kw_limit(out);
    emit_opt_int(out, limit);
    proof {
        assert(out@ =~= old(out)@ + filter_si(kw_limit(), opt_int_view(limit)));
    }
}

/// Wrap an already-encoded payload in the context envelope.  Wrapping is a
/// structural wrap of the finished inner bytes, never a field merge: the
/// inner payload rides along as an array of its bytes.
pub fn contexted_payload(context: &[u8], payload: &[u8]) -> (out: Vec<u8>)
    requires
        context@.len() <= MAX_WIRE_LEN,
        payload@.len() <= MAX_WIRE_LEN,
    ensures
        out@ == ctx_q(context@, payload@),
{
    let mut out: Vec<u8> = Vec::new();
    emit_arr_hdr(&mut out, 3);
    emit_kw_context(&mut out);
    emit_str(&mut out, context);
    emit_byte_arr(&mut out, payload);
    proof {
        assert(out@ =~= ctx_q(context@, payload@));
    }
    out
}

/// An empty context name selects the default partition and adds no
/// envelope; any other name wraps the payload.
fn wrap_context(context: &[u8], inner: Vec<u8>) -> (out: Vec<u8>)
    requires
        context@.len() <= MAX_WIRE_LEN,
        inner@.len() <= MAX_WIRE_LEN,
    ensures
        out@ == with_ctx(context@, inner@),
{
    if context.len() == 0 {
        inner
    } else {
        contexted_payload(context, inner.as_slice())
    }
}

/// The version probe request.
pub fn mr_service_payload() -> (out: Vec<u8>)
    ensures
        out@ == ver_q(),
{
    let mut out: Vec<u8> = Vec::new();
    emit_cmd_ver(&mut out);
    proof {
        assert(out@ =~= ver_q());
    }
    out
}

/// Single-pair score query without a context (the superposition variant).
pub fn mr_node_score_superposition_payload(ego: &[u8], target: &[u8]) -> (out: Vec<u8>)
    requires
        field_ok(ego@),
        field_ok(target@),
    ensures
        out@ == node_score_q(ego@, target@),
{
    let mut out: Vec<u8> = Vec::new();
    emit_arr_hdr(&mut out, 2);
    emit_arr_hdr(&mut out, 2);
    emit_arr_hdr(&mut out, 3);
    emit_kw_src(&mut out);
    emit_op_eq(&mut out);
    emit_str(&mut out, ego);
    emit_arr_hdr(&mut out, 3);
    emit_kw_dest(&mut out);
    emit_op_eq(&mut out);
    emit_str(&mut out, target);
    emit_nil(&mut out);
    proof {
        assert(out@ =~= node_score_q(ego@, target@));
    }
    out
}

/// Single-pair score query, scoped to `context` when that is non-empty.
pub fn mr_node_score_payload(ego: &[u8], target: &[u8], context: &[u8]) -> (out: Vec<u8>)
    requires
        field_ok(ego@),
        field_ok(target@),
        field_ok(context@),
    ensures
        out@ == with_ctx(context@, node_score_q(ego@, target@)),
{
    let inner = mr_node_score_superposition_payload(ego, target);
    proof {
        lemma_enc_str_len(ego@);
        lemma_enc_str_len(target@);
        assert(inner@.len() <= MAX_WIRE_LEN);
    }
    wrap_context(context, inner)
}

/// Single-pair score query in the linear-sum variant.
pub fn mr_node_score_linear_sum_payload(ego: &[u8], target: &[u8]) -> (out: Vec<u8>)
    requires
        field_ok(ego@),
        field_ok(target@),
    ensures
        out@ == node_score_linear_sum_q(ego@, target@),
{
    let mut out: Vec<u8> = Vec::new();
    emit_arr_hdr(&mut out, 3);
    emit_arr_hdr(&mut out, 2);
    emit_arr_hdr(&mut out, 3);
    emit_kw_src(&mut out);
    emit_op_eq(&mut out);
    emit_str(&mut out, ego);
    emit_arr_hdr(&mut out, 3);
    emit_kw_dest(&mut out);
    emit_op_eq(&mut out);
    emit_str(&mut out, target);
    emit_nil(&mut out);
    emit_lit_null(&mut out);
    proof {
        assert(out@ =~= node_score_linear_sum_q(ego@, target@));
    }
    out
}

/// Pairwise score in the linear-sum variant; same wire shape as the
/// single-pair linear-sum query.
pub fn mr_score_linear_sum_payload(src: &[u8], dest: &[u8]) -> (out: Vec<u8>)
    requires
        field_ok(src@),
        field_ok(dest@),
    ensures
        out@ == node_score_linear_sum_q(src@, dest@),
{
    mr_node_score_linear_sum_payload(src, dest)
}

/// Score listing for one ego in the linear-sum variant.
pub fn mr_scores_linear_sum_payload(src: &[u8]) -> (out: Vec<u8>)
    requires
        field_ok(src@),
    ensures
        out@ == scores_linear_sum_q(src@),
{
    let mut out: Vec<u8> = Vec::new();
    emit_arr_hdr(&mut out, 3);
    emit_arr_hdr(&mut out, 1);
    emit_arr_hdr(&mut out, 3);
    emit_kw_src(&mut out);
    emit_op_eq(&mut out);
    emit_str(&mut out, src);
    emit_nil(&mut out);
    emit_lit_null(&mut out);
    proof {
        assert(out@ =~= scores_linear_sum_q(src@));
    }
    out
}

/// Filtered score listing.  Exactly one of each bound pair may be given;
/// both of a pair is refused and nothing is built.
#[verifier::rlimit(100)]
#[verifier::spinoff_prover]
pub fn mr_scores_payload(
    ego: &[u8],
    hide_personal: bool,
    context: &[u8],
    start_with: Option<&[u8]>,
    score_lt: Option<u64>,
    score_lte: Option<u64>,
    score_gt: Option<u64>,
    score_gte: Option<u64>,
    limit: Option<i32>,
) -> (r: Result<Vec<u8>, QueryError>)
    requires
        field_ok(ego@),
        field_ok(context@),
        match start_with {
            Some(p) => field_ok(p@),
            None => true,
        },
    ensures
        r is Err <==> ((score_lt is Some && score_lte is Some) || (score_gt is Some
            && score_gte is Some)),
        r == Err::<Vec<u8>, QueryError>(QueryError::DuplicateUpperBound) <==> (score_lt is Some
            && score_lte is Some),
        r == Err::<Vec<u8>, QueryError>(QueryError::DuplicateLowerBound) <==> (!(score_lt is Some
            && score_lte is Some) && score_gt is Some && score_gte is Some),
        match r {
            Ok(out) => scores_payload_spec(
                ego@,
                prefix_view(start_with),
                hide_personal,
                score_lt,
                score_lte,
                score_gt,
                score_gte,
                opt_int_view(limit),
                context@,
            ) == Ok::<Seq<u8>, QueryError>(out@),
            Err(e) => scores_payload_spec(
                ego@,
                prefix_view(start_with),
                hide_personal,
                score_lt,
                score_lte,
                score_gt,
                score_gte,
                opt_int_view(limit),
                context@,
            ) == Err::<Seq<u8>, QueryError>(e),
        },
{
    let upper: (bool, u64) = match (score_lt, score_lte) {
        (Some(b), None) => (false, b),
        (None, Some(b)) => (true, b),
        (None, None) => (false, F64_MIN_BITS),
        _ => {
            return Err(QueryError::DuplicateUpperBound);
        },
    };
    let lower: (bool, u64) = match (score_gt, score_gte) {
        (Some(b), None) => (false, b),
        (None, Some(b)) => (true, b),
        (None, None) => (false, F64_MAX_BITS),
        _ => {
            return Err(QueryError::DuplicateLowerBound);
        },
    };
    let mut inner: Vec<u8> = Vec::new();
    emit_arr_hdr(&mut inner, 2);
    proof {
        assert(inner@ =~= enc_arr(2));
    }
    emit_arr_hdr(&mut inner, 6);
    emit_filter_src_eq(&mut inner, ego);
    let empty_prefix: Vec<u8> = Vec::new();
    let prefix: &[u8] = match start_with {
        Some(p) => p,
        None => empty_prefix.as_slice(),
    };
    emit_filter_target_like(&mut inner, prefix);
    emit_filter_hide_personal(&mut inner, hide_personal);
    emit_filter_score_lower(&mut inner, lower.0, lower.1);
    emit_filter_score_upper(&mut inner, upper.0, upper.1);
    emit_filter_limit(&mut inner, limit);
    emit_nil(&mut inner);
    proof {
        let gop = if lower.0 {
            op_ge()
        } else {
            op_gt()
        };
        let lop = if upper.0 {
            op_le()
        } else {
            op_lt()
        };
        assert(upper_bound_spec(score_lt, score_lte) == Some((lop, upper.1)));
        assert(lower_bound_spec(score_gt, score_gte) == Some((gop, lower.1)));
        assert(inner@ == scores_q(
            ego@,
            prefix_view(start_with),
            hide_personal,
            gop,
            lower.1,
            lop,
            upper.1,
            opt_int_view(limit),
        ));
        lemma_enc_str_len(ego@);
        lemma_enc_str_len(prefix_view(start_with));
        assert(inner@.len() <= MAX_WIRE_LEN);
    }
    Ok(wrap_context(context, inner))
}

/// Filtered score listing without a context and without hiding personal
/// scores (the superposition variant).
pub fn mr_scores_superposition_payload(
    ego: &[u8],
    start_with: Option<&[u8]>,
    score_lt: Option<u64>,
    score_lte: Option<u64>,
    score_gt: Option<u64>,
    score_gte: Option<u64>,
    limit: Option<i32>,
) -> (r: Result<Vec<u8>, QueryError>)
    requires
        field_ok(ego@),
        match start_with {
            Some(p) => field_ok(p@),
            None => true,
        },
    ensures
        r is Err <==> ((score_lt is Some && score_lte is Some) || (score_gt is Some
            && score_gte is Some)),
        match r {
            Ok(out) => scores_payload_spec(
                ego@,
                prefix_view(start_with),
                false,
                score_lt,
                score_lte,
                score_gt,
                score_gte,
                opt_int_view(limit),
                Seq::empty(),
            ) == Ok::<Seq<u8>, QueryError>(out@),
            Err(e) => scores_payload_spec(
                ego@,
                prefix_view(start_with),
                false,
                score_lt,
                score_lte,
                score_gt,
                score_gte,
                opt_int_view(limit),
                Seq::empty(),
            ) == Err::<Seq<u8>, QueryError>(e),
        },
{
    let empty_ctx: Vec<u8> = Vec::new();
    mr_scores_payload(
        ego,
        false,
        empty_ctx.as_slice(),
        start_with,
        score_lt,
        score_lte,
        score_gt,
        score_gte,
        limit,
    )
}

/// Edge upsert: the server accumulates `weight` for `(src, dest)` in the
/// chosen partition.
pub fn mr_put_edge_payload(src: &[u8], dest: &[u8], weight_bits: u64, context: &[u8]) -> (out: Vec<
    u8,
>)
    requires
        field_ok(src@),
        field_ok(dest@),
        field_ok(context@),
    ensures
        out@ == with_ctx(context@, put_edge_q(src@, dest@, weight_bits)),
{
    let mut inner: Vec<u8> = Vec::new();
    emit_arr_hdr(&mut inner, 2);
    emit_arr_hdr(&mut inner, 1);
    emit_arr_hdr(&mut inner, 3);
    emit_str(&mut inner, src);
    emit_str(&mut inner, dest);
    emit_f64_bits(&mut inner, weight_bits);
    emit_nil(&mut inner);
    proof {
        assert(inner@ =~= put_edge_q(src@, dest@, weight_bits));
        lemma_enc_str_len(src@);
        lemma_enc_str_len(dest@);
        assert(inner@.len() <= MAX_WIRE_LEN);
    }
    wrap_context(context, inner)
}

/// Edge removal by exact match.
pub fn mr_delete_edge_payload(ego: &[u8], target: &[u8], context: &[u8]) -> (out: Vec<u8>)
    requires
        field_ok(ego@),
        field_ok(target@),
        field_ok(context@),
    ensures
        out@ == with_ctx(context@, delete_edge_q(ego@, target@)),
{
    let mut inner: Vec<u8> = Vec::new();
    emit_arr_hdr(&mut inner, 2);
    emit_arr_hdr(&mut inner, 2);
    emit_arr_hdr(&mut inner, 3);
    emit_kw_src(&mut inner);
    emit_op_delete(&mut inner);
    emit_str(&mut inner, ego);
    emit_arr_hdr(&mut inner, 3);
    emit_kw_dest(&mut inner);
    emit_op_delete(&mut inner);
    emit_str(&mut inner, target);
    emit_nil(&mut inner);
    proof {
        assert(inner@ =~= delete_edge_q(ego@, target@));
        lemma_enc_str_len(ego@);
        lemma_enc_str_len(target@);
        assert(inner@.len() <= MAX_WIRE_LEN);
    }
    wrap_context(context, inner)
}

/// Node removal; the server also drops the node's incident edges.
pub fn mr_delete_node_payload(ego: &[u8], context: &[u8]) -> (out: Vec<u8>)
    requires
        field_ok(ego@),
        field_ok(context@),
    ensures
        out@ == with_ctx(context@, delete_node_q(ego@)),
{
    let mut inner: Vec<u8> = Vec::new();
    emit_arr_hdr(&mut inner, 2);
    emit_arr_hdr(&mut inner, 1);
    emit_arr_hdr(&mut inner, 3);
    emit_kw_src(&mut inner);
    emit_op_delete(&mut inner);
    emit_str(&mut inner, ego);
    emit_nil(&mut inner);
    proof {
        assert(inner@ =~= delete_node_q(ego@));
        lemma_enc_str_len(ego@);
        assert(inner@.len() <= MAX_WIRE_LEN);
    }
    wrap_context(context, inner)
}

fn gravity_payload(
    cmd_is_nodes: bool,
    ego: &[u8],
    focus: &[u8],
    context: &[u8],
    positive_only: bool,
    limit: Option<i32>,
) -> (out: Vec<u8>)
    requires
        field_ok(ego@),
        field_ok(focus@),
        field_ok(context@),
    ensures
        out@ == with_ctx(
            context@,
            gravity_q(
                if cmd_is_nodes {
                    kw_gravity_nodes()
                } else {
                    kw_gravity()
                },
                ego@,
                focus@,
                positive_only,
                opt_int_view(limit),
            ),
        ),
{
    let mut inner: Vec<u8> = Vec::new();
    emit_arr_hdr(&mut inner, 2);
    emit_arr_hdr(&mut inner, 3);
    emit_arr_hdr(&mut inner, 3);
    emit_str(&mut inner, ego);
    if cmd_is_nodes {
        emit_kw_gravity_nodes(&mut inner);
    } else {
        emit_kw_gravity(&mut inner);
    }
    emit_str(&mut inner, focus);
    emit_bool(&mut inner, positive_only);
    emit_opt_int(&mut inner, limit);
    emit_nil(&mut inner);
    proof {
        let cmd = if cmd_is_nodes {
            kw_gravity_nodes()
        } else {
            kw_gravity()
        };
        assert(inner@ =~= gravity_q(cmd, ego@, focus@, positive_only, opt_int_view(limit)));
        lemma_enc_str_len(ego@);
        lemma_enc_str_len(focus@);
        assert(inner@.len() <= MAX_WIRE_LEN);
    }
    wrap_context(context, inner)
}

/// Gravity graph query: score triples relative to a focus node.
pub fn mr_graph_payload(
    ego: &[u8],
    focus: &[u8],
    context: &[u8],
    positive_only: bool,
    limit: Option<i32>,
) -> (out: Vec<u8>)
    requires
        field_ok(ego@),
        field_ok(focus@),
        field_ok(context@),
    ensures
        out@ == with_ctx(
            context@,
            gravity_q(kw_gravity(), ego@, focus@, positive_only, opt_int_view(limit)),
        ),
{
    gravity_payload(false, ego, focus, context, positive_only, limit)
}

/// Gravity node query: node-weight pairs relative to a focus node.
pub fn mr_nodes_payload(
    ego: &[u8],
    focus: &[u8],
    context: &[u8],
    positive_only: bool,
    limit: Option<i32>,
) -> (out: Vec<u8>)
    requires
        field_ok(ego@),
        field_ok(focus@),
        field_ok(context@),
    ensures
        out@ == with_ctx(
            context@,
            gravity_q(kw_gravity_nodes(), ego@, focus@, positive_only, opt_int_view(limit)),
        ),
{
    gravity_payload(true, ego, focus, context, positive_only, limit)
}

/// Connected-node listing for one ego.
pub fn mr_connected_payload(ego: &[u8], context: &[u8]) -> (out: Vec<u8>)
    requires
        field_ok(ego@),
        field_ok(context@),
    ensures
        out@ == with_ctx(context@, connected_q(ego@)),
{
    let mut inner: Vec<u8> = Vec::new();
    emit_arr_hdr(&mut inner, 2);
    emit_arr_hdr(&mut inner, 1);
    emit_arr_hdr(&mut inner, 2);
    emit_str(&mut inner, ego);
    emit_kw_connected(&mut inner);
    emit_nil(&mut inner);
    proof {
        assert(inner@ =~= connected_q(ego@));
        lemma_enc_str_len(ego@);
        assert(inner@.len() <= MAX_WIRE_LEN);
    }
    wrap_context(context, inner)
}

/// Listing of all node ids.
pub fn mr_nodelist_payload(context: &[u8]) -> (out: Vec<u8>)
    requires
        field_ok(context@),
    ensures
        out@ == with_ctx(context@, cmd_q(cmd_nodes())),
{
    let mut inner: Vec<u8> = Vec::new();
    emit_arr_hdr(&mut inner, 2);
    emit_cmd_nodes(&mut inner);
    emit_nil(&mut inner);
    proof {
        assert(inner@ =~= cmd_q(cmd_nodes()));
    }
    wrap_context(context, inner)
}

/// Listing of all edges.
pub fn mr_edgelist_payload(context: &[u8]) -> (out: Vec<u8>)
    requires
        field_ok(context@),
    ensures
        out@ == with_ctx(context@, cmd_q(cmd_edges())),
{
    let mut inner: Vec<u8> = Vec::new();
    emit_arr_hdr(&mut inner, 2);
    emit_cmd_edges(&mut inner);
    emit_nil(&mut inner);
    proof {
        assert(inner@ =~= cmd_q(cmd_edges()));
    }
    wrap_context(context, inner)
}

/// The global beacon listing; a slow administrative query.
pub fn mr_for_beacons_global_payload() -> (out: Vec<u8>)
    ensures
        out@ == cmd_q(cmd_for_beacons_global()),
{
    let mut out: Vec<u8> = Vec::new();
    emit_arr_hdr(&mut out, 2);
    emit_cmd_for_beacons_global(&mut out);
    emit_nil(&mut out);
    proof {
        assert(out@ =~= cmd_q(cmd_for_beacons_global()));
    }
    out
}

/// The zero-recalculation command; a slow administrative command.
pub fn mr_zerorec_payload() -> (out: Vec<u8>)
    ensures
        out@ == cmd_q(cmd_zerorec()),
{
    let mut out: Vec<u8> = Vec::new();
    emit_arr_hdr(&mut out, 2);
    emit_cmd_zerorec(&mut out);
    emit_nil(&mut out);
    proof {
        assert(out@ =~= cmd_q(cmd_zerorec()));
    }
    out
}

} // verus!
