use ssb64_utils::pointers::{ResPtr, SSBPtr};

const VALID: u32 = 0x001A00FF;
const VALID_END: u32 = 0xFFFF0001;
const VALID_NULL: u32 = 0x00000000;
const INVALID_OFFSET: u32 = 0x00004530;
const REAL_PTR: u32 = 0x800A4D08;

const VALID_PARSED: ResPtr = ResPtr {
    next: Some((VALID & 0xFFFF0000) >> 14),
    offset: (VALID & 0xFFFF) << 2,
};
const VALID_END_PARSED: ResPtr = ResPtr {
    next: None,
    offset: (VALID_END & 0xFFFF) << 2,
};

#[test]
fn parse_valid_res_ptrs() {
    let test_valid = ResPtr::from_u32(VALID);
    let test_valid_end = ResPtr::from_u32(VALID_END);

    assert_eq!(test_valid, VALID_PARSED, "Error directly parsing \"VALID\"");
    assert_eq!(test_valid_end, VALID_END_PARSED, "Error directly parsing \"VALID_END\"");
    // check returning the parsed pointer to their packed u32 representation
    let test_valid_u32 = test_valid.as_packed_u32();
    let test_valid_end_u32 = test_valid_end.as_packed_u32();

    assert_eq!(test_valid_u32, VALID, "Error returning parsed \"VALID\" to u32");
    assert_eq!(test_valid_end_u32, VALID_END, "Error returning parsed \"VALID_END\" to u32");
}

#[test]
fn check_ssbptr_as_u32s() {
    let null_ssbptr = SSBPtr::Null;
    let fixed_ssbptr = SSBPtr::Fixed(REAL_PTR);
    let resource_ssbptr = SSBPtr::Resource(VALID_END_PARSED);

    assert_eq!(null_ssbptr.as_u32(), 0x0, "Error casting null ssbptr as u32");
    assert_eq!(fixed_ssbptr.as_u32(), REAL_PTR, "Error casting fixed pointer back to u32");
    assert_eq!(
        resource_ssbptr.as_u32(),
        VALID_END_PARSED.as_packed_u32(),
        "Error casting resource ssbptr to u32"
    );
}

#[test]
fn check_ssbptr_parsing_valid() {
    let parsed_valid = SSBPtr::from_u32(VALID);
    let parsed_end = SSBPtr::from_u32(VALID_END);

    assert_eq!(
        parsed_valid,
        SSBPtr::Resource(VALID_PARSED),
        "Error when creating SSBPtr enum for valid u32 \"VALID\""
    );

    assert_eq!(
        parsed_end,
        SSBPtr::Resource(VALID_END_PARSED),
        "Error when creating SSBPtr enum for valid u32 \"VALID_END\""
    );
}

#[test]
fn check_ssbptr_parsing_null() {
    let parsed_null = SSBPtr::from_u32(VALID_NULL);

    assert_eq!(
        parsed_null,
        SSBPtr::Null,
        "Error when creating SSBPtr enum for null u32 \"VALID_NULL\""
    );
}

#[test]
fn check_ssbptr_fixed_parsing() {
    let parsed_ptr = SSBPtr::from_u32(REAL_PTR);
    let parsed_no_offset = SSBPtr::from_u32(INVALID_OFFSET);

    assert_eq!(
        parsed_ptr,
        SSBPtr::Fixed(REAL_PTR),
        "Error when parsing u32 to create fixed ssbptr"
    );
    assert_eq!(
        parsed_no_offset,
        SSBPtr::Fixed(INVALID_OFFSET),
        "Error when parsing u32 with empty offset only to create fixed ssbptr"
    );
}

#[test]
fn ptr_roundtrip_every_kind() {
    for v in [0u32, 1, 0x0001_0000, 0xFFFF_FFFF, 0x8000_0000, 0x7FFF_FFFF, 0x1234_5678, 0xFFFF_0000] {
        assert_eq!(SSBPtr::from_u32(v).as_u32(), v);
        assert_eq!(ResPtr::from_u32(v).as_packed_u32(), v);
    }
}

#[test]
fn res_ptr_from_packed() {
    let p = ResPtr { next: Some(0x40), offset: 0x1FC };
    assert_eq!(p.as_packed_u32(), 0x0010_007F);
    assert_eq!(ResPtr::from_u32(p.as_packed_u32()), p);
}
