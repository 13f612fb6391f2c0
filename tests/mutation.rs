use dnsfuzz::mutation::{
    apply_header_mutation, case_mutation_choices, header_mutation_choices, CaseMutation, HeaderFlags,
    HeaderMutation,
};

#[test]
fn case_choices_cover_every_response() {
    assert_eq!(
        case_mutation_choices(1),
        vec![
            (CaseMutation::AddResponse { index: 0 }, 1),
            (CaseMutation::RemoveResponse { index: 0 }, 2),
            (CaseMutation::MutateResponse { index: 0 }, 2),
            (CaseMutation::AddResponse { index: 1 }, 1),
            (CaseMutation::MutateClientQuery, 5),
        ]
    );
    assert_eq!(case_mutation_choices(0).len(), 2);
    assert_eq!(case_mutation_choices(3).len(), 11);
}

#[test]
fn header_mutations_flip_one_field() {
    let h0 = HeaderFlags {
        is_response: false,
        op_code: 0,
        authoritative: false,
        truncated: false,
        recursion_desired: true,
        recursion_available: false,
        authentic_data: false,
        checking_disabled: false,
        response_code: 0,
    };
    assert_eq!(header_mutation_choices().len(), 9);
    let mut h = h0;
    apply_header_mutation(&mut h, HeaderMutation::ModifyRecursionDesired, 7, 9);
    assert_eq!(h, HeaderFlags { recursion_desired: false, ..h0 });
    apply_header_mutation(&mut h, HeaderMutation::ModifyRcode, 7, 9);
    assert_eq!(h.response_code, 9);
    apply_header_mutation(&mut h, HeaderMutation::ModifyOpcode, 7, 9);
    assert_eq!(h.op_code, 7);
    apply_header_mutation(&mut h, HeaderMutation::ModifyQuery, 7, 9);
    assert!(h.is_response);
}
