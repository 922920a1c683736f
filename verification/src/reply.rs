//! The reply correlator: the deferred continuation of an outbound send.
//!
//! The host delivers exactly one continuation for each tagged gateway
//! instruction. On success the remote-assigned identifier is read out of
//! the gateway's result data and appended to the pending-request ledger;
//! every failure is classified and surfaced, and the ledger stays as it
//! was.
use vstd::prelude::*;
use vstd::string::StringExecFns;

use crate::consts::ISEND_ID;
use crate::diag::{build_reply_result_data, json_quoted, parse_dec_u64, parse_u64_dec,
    reply_result_text};
use crate::error::ContractError;
use crate::msg::{GatewayReply, Reply, Response};
use crate::state::{ContractState, PendingRequests};

verus! {

/// What a successful correlation does to the state: the identifier is
/// appended to the ledger and nothing else moves.
pub open spec fn reply_success_post(pre: ContractState, post: ContractState, id: u64) -> bool {
    &&& post.pending_seq() == pre.pending_seq().push(id)
    &&& post.config == pre.config
    &&& post.name_resolver == pre.name_resolver
    &&& post.request == pre.request
    &&& post.result == pre.result
    &&& post.nonce == pre.nonce
}

/// Which error a failing correlation reports: the nested call's own
/// failure, a reply that carried no data, data that does not spell an
/// identifier, or a message that was not text.
pub open spec fn i_send_reply_err(rep: Reply, e: ContractError) -> bool {
    match rep.result {
        GatewayReply::Data(opt) => match opt {
            Some(b) => parse_dec_u64(b@) is None && (e matches ContractError::Std { msg } && msg@
                == "Error parsing into type u64"@),
            None => e matches ContractError::Std { msg } && msg@
                == "ParseFailure: Missing reply data"@,
        },
        GatewayReply::SubMsgFailure(s) => e matches ContractError::Std { msg } && msg@
            == "SubMsgFailure: "@ + s@,
        GatewayReply::ParseFailure(s) => e matches ContractError::Std { msg } && msg@
            == "ParseFailure: "@ + s@,
        GatewayReply::BrokenUtf8 => e matches ContractError::Std { msg } && msg@ == "BrokenUtf8"@,
    }
}

/// The whole behaviour of one correlation: success exactly when the
/// gateway handed back data spelling an identifier; then the ledger grows
/// by that identifier and the confirmation text is returned; otherwise
/// the state is untouched and the failure is classified.
pub open spec fn i_send_reply_rel(
    pre: ContractState,
    post: ContractState,
    rep: Reply,
    r: Result<Response, ContractError>,
) -> bool {
    &&& (r is Ok <==> (rep.result matches GatewayReply::Data(opt) && opt matches Some(b)
        && parse_dec_u64(b@) is Some))
    &&& (r matches Ok(resp) ==> (rep.result matches GatewayReply::Data(opt)
        && opt matches Some(b) && parse_dec_u64(b@) matches Some(id) && reply_success_post(
            pre,
            post,
            id,
        ) && (resp.data matches Some(rd) && rd@ == json_quoted(reply_result_text(id)))
        && resp.messages@.len() == 0 && resp.attributes@.len() == 0 && resp.events@.len() == 0))
    &&& (r matches Err(e) ==> post == pre && i_send_reply_err(rep, e))
}

/// A copy of an identifier list.
pub fn clone_pending_ids(src: &Vec<u64>) -> (r: Vec<u64>)
    ensures
        r@ == src@,
{
    let mut out: Vec<u64> = Vec::new();
    let mut i: usize = 0;
    while i < src.len()
        invariant
            i <= src@.len(),
            out@ == src@.take(i as int),
        decreases src@.len() - i,
    {
        out.push(src[i]);
        assert(src@.take(i as int).push(src@[i as int]) =~= src@.take(i + 1));
        i = i + 1;
    }
    assert(src@.take(src@.len() as int) =~= src@);
    out
}

/// Correlates one continuation of an outbound send.
pub fn handle_i_send_reply(state: &mut ContractState, reply: Reply) -> (r: Result<
    Response,
    ContractError,
>)
    ensures
        i_send_reply_rel(*old(state), *final(state), reply, r),
{
    match reply.result {
        GatewayReply::Data(opt) => match opt {
            Some(data) => match parse_u64_dec(&data) {
                Some(request_identifier) => {
                    let mut requests: Vec<u64> = match &state.pending {
                        Some(p) => clone_pending_ids(&p.requests),
                        None => Vec::new(),
                    };
                    requests.push(request_identifier);
                    state.pending = Some(PendingRequests { requests });
                    let result_data = build_reply_result_data(request_identifier);
                    let response = Response {
                        messages: Vec::new(),
                        attributes: Vec::new(),
                        events: Vec::new(),
                        data: Some(result_data),
                    };
                    Ok(response)
                },
                None => Err(
                    ContractError::Std { msg: String::from_str("Error parsing into type u64") },
                ),
            },
            None => Err(
                ContractError::Std { msg: String::from_str("ParseFailure: Missing reply data") },
            ),
        },
        GatewayReply::SubMsgFailure(s) => Err(
            ContractError::Std { msg: String::from_str("SubMsgFailure: ").concat(s.as_str()) },
        ),
        GatewayReply::ParseFailure(s) => Err(
            ContractError::Std { msg: String::from_str("ParseFailure: ").concat(s.as_str()) },
        ),
        GatewayReply::BrokenUtf8 => Err(
            ContractError::Std { msg: String::from_str("BrokenUtf8") },
        ),
    }
}

/// Routes a continuation by its tag; any tag but the send tag is a
/// protocol violation.
pub fn reply(state: &mut ContractState, rep: Reply) -> (r: Result<Response, ContractError>)
    ensures
        rep.id == ISEND_ID ==> i_send_reply_rel(*old(state), *final(state), rep, r),
        rep.id != ISEND_ID ==> *final(state) == *old(state) && (r matches Err(
            ContractError::Std { msg },
        ) && msg@ == "=========================invalid reply id=========================="@),
{
    match rep.id {
        ISEND_ID => handle_i_send_reply(state, rep),
        _ => {
            let msg = String::from_str(
                "=========================invalid reply id==========================",
            );
            Err(ContractError::Std { msg })
        },
    }
}

/// A chain of successful correlations: each step appends its identifier.
pub open spec fn correlation_chain(states: Seq<ContractState>, ids: Seq<u64>) -> bool {
    states.len() == ids.len() + 1 && forall|i: int|
        0 <= i < ids.len() ==> reply_success_post(#[trigger] states[i], states[i + 1], ids[i])
}

/// Ledger monotonicity: after a chain of successful correlations the
/// ledger holds what it held before followed by the delivered
/// identifiers, in delivery order; so a chain that starts empty ends
/// with exactly the `N` identifiers. A failed correlation is no step of
/// such a chain: by [`i_send_reply_rel`] it leaves the state, and so the
/// ledger, unchanged.
pub proof fn lemma_ledger_monotonic(states: Seq<ContractState>, ids: Seq<u64>)
    requires
        correlation_chain(states, ids),
    ensures
        states.last().pending_seq() == states[0].pending_seq() + ids,
        states.last().pending_seq().len() == states[0].pending_seq().len() + ids.len(),
    decreases ids.len(),
{
    if ids.len() == 0 {
        assert(states.last() == states[0]);
        assert(states[0].pending_seq() + ids =~= states[0].pending_seq());
    } else {
        let shorter = states.drop_last();
        let fewer = ids.drop_last();
        assert(correlation_chain(shorter, fewer)) by {
            assert(forall|i: int|
                0 <= i < fewer.len() ==> reply_success_post(
                    #[trigger] shorter[i],
                    shorter[i + 1],
                    fewer[i],
                ));
        }
        lemma_ledger_monotonic(shorter, fewer);
        let last_id = ids[ids.len() - 1];
        assert(reply_success_post(states[states.len() - 2], states[states.len() - 1], last_id));
        assert(shorter.last() == states[states.len() - 2]);
        assert(states.last().pending_seq() == shorter.last().pending_seq().push(
            ids[ids.len() - 1],
        ));
        assert(states[0].pending_seq() + fewer + seq![ids[ids.len() - 1]] =~= states[0].pending_seq()
            + ids);
        assert(shorter.last().pending_seq().push(ids[ids.len() - 1]) =~= shorter.last().pending_seq()
            + seq![ids[ids.len() - 1]]);
    }
}

/// A failed correlation leaves the ledger's length unchanged.
pub proof fn lemma_failed_correlation_keeps_ledger(
    pre: ContractState,
    post: ContractState,
    rep: Reply,
    r: Result<Response, ContractError>,
)
    requires
        i_send_reply_rel(pre, post, rep, r),
        r is Err,
    ensures
        post.pending_seq() == pre.pending_seq(),
{
}

} // verus!
