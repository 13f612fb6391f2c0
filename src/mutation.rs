//! Choices of the mutator on fuzz cases and message headers, and the header mutations.

use vstd::prelude::*;

verus! {

/// One way of changing a fuzz case.
#[derive(Clone, Copy, Debug, PartialEq, Eq, Structural)]
pub enum CaseMutation {
    /// Insert a new scripted response at `index`.
    AddResponse { index: usize },
    /// Remove the scripted response at `index`.
    RemoveResponse { index: usize },
    /// Change the scripted response at `index`.
    MutateResponse { index: usize },
    /// Change the client query.
    MutateClientQuery,
}

/// The choices concerning the first `n` scripted responses: for each, adding one before it
/// (weight 1), removing it (2) and changing it (2).
pub open spec fn per_response_menu(n: nat) -> Seq<(CaseMutation, u32)>
    decreases n,
{
    if n == 0 {
        Seq::empty()
    } else {
        per_response_menu((n - 1) as nat) + seq![
            (CaseMutation::AddResponse { index: (n - 1) as usize }, 1u32),
            (CaseMutation::RemoveResponse { index: (n - 1) as usize }, 2u32),
            (CaseMutation::MutateResponse { index: (n - 1) as usize }, 2u32),
        ]
    }
}

/// The weighted choices of mutation for a case with `n` scripted responses: those of each
/// response, adding one at the end (1), and changing the client query (5).
pub fn case_mutation_choices(n: usize) -> (r: Vec<(CaseMutation, u32)>)
    ensures
        r@ == per_response_menu(n as nat) + seq![
            (CaseMutation::AddResponse { index: n }, 1u32),
            (CaseMutation::MutateClientQuery, 5u32),
        ],
{
    let mut out: Vec<(CaseMutation, u32)> = Vec::new();
    let mut i: usize = 0;
    while i < n
        invariant
            i <= n,
            out@ == per_response_menu(i as nat),
        decreases n - i,
    {
        out.push((CaseMutation::AddResponse { index: i }, 1));
        out.push((CaseMutation::RemoveResponse { index: i }, 2));
        out.push((CaseMutation::MutateResponse { index: i }, 2));
        proof {
            assert(out@ =~= per_response_menu((i + 1) as nat));
        }
        i = i + 1;
    }
    out.push((CaseMutation::AddResponse { index: n }, 1));
    out.push((CaseMutation::MutateClientQuery, 5));
    proof {
        assert(out@ =~= per_response_menu(n as nat) + seq![
            (CaseMutation::AddResponse { index: n }, 1u32),
            (CaseMutation::MutateClientQuery, 5u32),
        ]);
    }
    out
}

/// The header fields the mutator changes.
#[derive(Clone, Copy, Debug, PartialEq, Eq, Structural)]
pub struct HeaderFlags {
    pub is_response: bool,
    pub op_code: u8,
    pub authoritative: bool,
    pub truncated: bool,
    pub recursion_desired: bool,
    pub recursion_available: bool,
    pub authentic_data: bool,
    pub checking_disabled: bool,
    pub response_code: u16,
}

/// One way of changing a header, each equally likely.
#[derive(Clone, Copy, Debug, PartialEq, Eq, Structural)]
pub enum HeaderMutation {
    ModifyQuery,
    ModifyOpcode,
    ModifyAuthoritativeAnswer,
    ModifyTruncatedResponse,
    ModifyRecursionDesired,
    ModifyRecursionAvailable,
    ModifyAuthenticData,
    ModifyCheckingDisabled,
    ModifyRcode,
}

/// The choices of header mutation, all of weight 1.
pub fn header_mutation_choices() -> (r: Vec<(HeaderMutation, u32)>)
    ensures
        r@ == seq![
            (HeaderMutation::ModifyQuery, 1u32),
            (HeaderMutation::ModifyOpcode, 1u32),
            (HeaderMutation::ModifyAuthoritativeAnswer, 1u32),
            (HeaderMutation::ModifyTruncatedResponse, 1u32),
            (HeaderMutation::ModifyRecursionDesired, 1u32),
            (HeaderMutation::ModifyRecursionAvailable, 1u32),
            (HeaderMutation::ModifyAuthenticData, 1u32),
            (HeaderMutation::ModifyCheckingDisabled, 1u32),
            (HeaderMutation::ModifyRcode, 1u32),
        ],
{
    let r = vec![
        (HeaderMutation::ModifyQuery, 1u32),
        (HeaderMutation::ModifyOpcode, 1u32),
        (HeaderMutation::ModifyAuthoritativeAnswer, 1u32),
        (HeaderMutation::ModifyTruncatedResponse, 1u32),
        (HeaderMutation::ModifyRecursionDesired, 1u32),
        (HeaderMutation::ModifyRecursionAvailable, 1u32),
        (HeaderMutation::ModifyAuthenticData, 1u32),
        (HeaderMutation::ModifyCheckingDisabled, 1u32),
        (HeaderMutation::ModifyRcode, 1u32),
    ];
    proof {
        assert(r@ =~= seq![
            (HeaderMutation::ModifyQuery, 1u32),
            (HeaderMutation::ModifyOpcode, 1u32),
            (HeaderMutation::ModifyAuthoritativeAnswer, 1u32),
            (HeaderMutation::ModifyTruncatedResponse, 1u32),
            (HeaderMutation::ModifyRecursionDesired, 1u32),
            (HeaderMutation::ModifyRecursionAvailable, 1u32),
            (HeaderMutation::ModifyAuthenticData, 1u32),
            (HeaderMutation::ModifyCheckingDisabled, 1u32),
            (HeaderMutation::ModifyRcode, 1u32),
        ]);
    }
    r
}

/// Applies a header mutation: flips the message type or a flag, or sets the opcode or the
/// response code to the drawn `new_op_code` or `new_response_code`.
pub fn apply_header_mutation(h: &mut HeaderFlags, m: HeaderMutation, new_op_code: u8, new_response_code: u16)
    ensures
        *final(h) == match m {
            HeaderMutation::ModifyQuery => HeaderFlags { is_response: !old(h).is_response, ..*old(h) },
            HeaderMutation::ModifyOpcode => HeaderFlags { op_code: new_op_code, ..*old(h) },
            HeaderMutation::ModifyAuthoritativeAnswer => HeaderFlags { authoritative: !old(h).authoritative, ..*old(h) },
            HeaderMutation::ModifyTruncatedResponse => HeaderFlags { truncated: !old(h).truncated, ..*old(h) },
            HeaderMutation::ModifyRecursionDesired => HeaderFlags { recursion_desired: !old(h).recursion_desired, ..*old(h) },
            HeaderMutation::ModifyRecursionAvailable => HeaderFlags { recursion_available: !old(h).recursion_available, ..*old(h) },
            HeaderMutation::ModifyAuthenticData => HeaderFlags { authentic_data: !old(h).authentic_data, ..*old(h) },
            HeaderMutation::ModifyCheckingDisabled => HeaderFlags { checking_disabled: !old(h).checking_disabled, ..*old(h) },
            HeaderMutation::ModifyRcode => HeaderFlags { response_code: new_response_code, ..*old(h) },
        },
{
    match m {
        HeaderMutation::ModifyQuery => h.is_response = !h.is_response,
        HeaderMutation::ModifyOpcode => h.op_code = new_op_code,
        HeaderMutation::ModifyAuthoritativeAnswer => h.authoritative = !h.authoritative,
        HeaderMutation::ModifyTruncatedResponse => h.truncated = !h.truncated,
        HeaderMutation::ModifyRecursionDesired => h.recursion_desired = !h.recursion_desired,
        HeaderMutation::ModifyRecursionAvailable => h.recursion_available = !h.recursion_available,
        HeaderMutation::ModifyAuthenticData => h.authentic_data = !h.authentic_data,
        HeaderMutation::ModifyCheckingDisabled => h.checking_disabled = !h.checking_disabled,
        HeaderMutation::ModifyRcode => h.response_code = new_response_code,
    }
}

} // verus!
