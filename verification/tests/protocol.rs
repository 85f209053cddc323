//! The fixed-buffer control protocol: opcodes, payload layouts, size
//! limits, and the driver rule-table model.

use hybrid_mount::hidectl::{
    hide_request, merge_request, redirect_request, set_trust_request, spoof_request,
    unhide_request, unmerge_request, unredirect_request, unspoof_request, spoof_wire_size,
    CtlError, DriverModel, IoctlSpoofArgs, SpoofMeta, NAME_BUF_LEN, PAIR_BUF_LEN,
    SPOOF_ARGS_SIZE,
};
use hybrid_mount::ioc::ioc;

#[test]
fn ioc_packs_all_fields() {
    // write direction, type 0x43, number 1, 256-byte payload
    assert_eq!(ioc(1, 0x43, 1, 256), 0x4100_4301);
    // read direction
    assert_eq!(ioc(2, 0xE0, 6, 4), 0x8004_E006);
    // no direction, no payload
    assert_eq!(ioc(0, 0xE0, 5, 0), 0x0000_E005);
}

#[test]
fn hide_request_encodes_padded_name() {
    let req = hide_request(&b"abc".to_vec()).unwrap();
    assert_eq!(req.opcode, 0x4100_4301);
    assert_eq!(req.payload.len(), NAME_BUF_LEN);
    assert_eq!(&req.payload[..3], b"abc");
    assert!(req.payload[3..].iter().all(|&b| b == 0));
}

#[test]
fn unhide_request_uses_its_own_opcode() {
    let req = unhide_request(&b"abc".to_vec()).unwrap();
    assert_eq!(req.opcode, 0x4100_4302);
    assert_eq!(req.payload.len(), NAME_BUF_LEN);
}

#[test]
fn oversized_name_is_rejected_before_any_request() {
    // exactly 256 bytes is already too long for the NUL-padded buffer
    let long = vec![b'a'; 256];
    assert_eq!(hide_request(&long), Err(CtlError::NameTooLong));
    assert_eq!(unhide_request(&long), Err(CtlError::NameTooLong));
    assert_eq!(unredirect_request(&long), Err(CtlError::NameTooLong));
    assert_eq!(unspoof_request(&long), Err(CtlError::NameTooLong));
    assert_eq!(unmerge_request(&long), Err(CtlError::NameTooLong));
    assert_eq!(spoof_request(&long, 0, 0, 0, 0), Err(CtlError::NameTooLong));
    // one byte less fits
    let fits = vec![b'a'; 255];
    assert!(hide_request(&fits).is_ok());
}

#[test]
fn redirect_request_joins_src_and_target() {
    let req = redirect_request(&b"/a".to_vec(), &b"/b".to_vec()).unwrap();
    assert_eq!(req.opcode, 0x4200_4304);
    assert_eq!(req.payload.len(), PAIR_BUF_LEN);
    assert_eq!(&req.payload[..5], b"/a|/b");
    assert!(req.payload[5..].iter().all(|&b| b == 0));
}

#[test]
fn oversized_pair_is_rejected() {
    let src = vec![b's'; 300];
    let target = vec![b't'; 300];
    assert_eq!(redirect_request(&src, &target), Err(CtlError::PayloadTooLong));
    assert_eq!(merge_request(&src, &target), Err(CtlError::PayloadTooLong));
    // 255 + '|' + 255 = 511 still fits
    let s2 = vec![b's'; 255];
    let t2 = vec![b't'; 255];
    assert!(redirect_request(&s2, &t2).is_ok());
    // 256 + '|' + 255 = 512 does not
    let s3 = vec![b's'; 256];
    assert_eq!(redirect_request(&s3, &t2), Err(CtlError::PayloadTooLong));
}

#[test]
fn merge_and_unmerge_opcodes() {
    assert_eq!(merge_request(&b"x".to_vec(), &b"y".to_vec()).unwrap().opcode, 0x4200_430A);
    assert_eq!(unmerge_request(&b"x".to_vec()).unwrap().opcode, 0x4100_430B);
    assert_eq!(unredirect_request(&b"x".to_vec()).unwrap().opcode, 0x4100_4305);
    assert_eq!(unspoof_request(&b"x".to_vec()).unwrap().opcode, 0x4100_4308);
}

#[test]
fn spoof_struct_size_matches_declared_constant() {
    assert_eq!(SPOOF_ARGS_SIZE, 256 + 4 + 4 + 2 + 8 + 6);
    assert_eq!(spoof_wire_size(), SPOOF_ARGS_SIZE);
    let args = IoctlSpoofArgs::new(&b"f".to_vec(), 0, 0, 0, 0).unwrap();
    assert_eq!(args.encode().len(), SPOOF_ARGS_SIZE);
}

#[test]
fn spoof_request_lays_fields_at_fixed_offsets() {
    let req = spoof_request(&b"/f".to_vec(), 0x0102_0304, 0x0506_0708, 0x1122, 0x0A0B_0C0D_0E0F_1011)
        .unwrap();
    assert_eq!(req.opcode, 0x4118_4307);
    let p = &req.payload;
    assert_eq!(p.len(), 280);
    assert_eq!(&p[..2], b"/f");
    assert!(p[2..256].iter().all(|&b| b == 0));
    // little-endian uid, gid, mode; six bytes of padding; mtime
    assert_eq!(&p[256..260], &[0x04, 0x03, 0x02, 0x01]);
    assert_eq!(&p[260..264], &[0x08, 0x07, 0x06, 0x05]);
    assert_eq!(&p[264..266], &[0x22, 0x11]);
    assert_eq!(&p[266..272], &[0, 0, 0, 0, 0, 0]);
    assert_eq!(&p[272..280], &[0x11, 0x10, 0x0F, 0x0E, 0x0D, 0x0C, 0x0B, 0x0A]);
}

#[test]
fn set_trust_request_carries_the_gid() {
    let req = set_trust_request(0xAABB_CCDD);
    assert_eq!(req.opcode, 0x4004_430D);
    assert_eq!(req.payload, vec![0xDD, 0xCC, 0xBB, 0xAA]);
}

#[test]
fn hide_then_unhide_is_a_noop_on_the_rule_table() {
    let name = b"/system/app/x".to_vec();
    let mut table = DriverModel::new();
    assert!(!table.is_hidden(&name));
    table.add_hide(&name);
    assert!(table.is_hidden(&name));
    table.del_hide(&name);
    assert!(!table.is_hidden(&name));
}

#[test]
fn hide_is_idempotent_and_leaves_other_names_alone() {
    let a = b"/a".to_vec();
    let b = b"/b".to_vec();
    let mut table = DriverModel::new();
    table.add_hide(&a);
    table.add_hide(&a);
    table.add_hide(&b);
    table.del_hide(&a);
    assert!(!table.is_hidden(&a));
    assert!(table.is_hidden(&b));
}

#[test]
fn redirect_table_upserts_by_source() {
    let src = b"/src".to_vec();
    let t1 = b"/t1".to_vec();
    let t2 = b"/t2".to_vec();
    let mut table = DriverModel::new();
    table.add_redirect(&src, &t1);
    assert!(table.has_redirect(&src, &t1));
    table.add_redirect(&src, &t2);
    assert!(!table.has_redirect(&src, &t1));
    assert!(table.has_redirect(&src, &t2));
    table.del_redirect(&src);
    assert!(!table.has_redirect(&src, &t2));
}

#[test]
fn merge_and_spoof_tables_and_trusted_gid() {
    let src = b"/m".to_vec();
    let tgt = b"/n".to_vec();
    let meta = SpoofMeta { uid: 1000, gid: 1000, mode: 0o644, mtime: 7 };
    let mut table = DriverModel::new();
    table.add_merge(&src, &tgt);
    assert!(table.has_merge(&src, &tgt));
    table.del_merge(&src);
    assert!(!table.has_merge(&src, &tgt));
    table.add_spoof(&src, meta);
    assert!(table.has_spoof(&src, meta));
    table.del_spoof(&src);
    assert!(!table.has_spoof(&src, meta));
    assert_eq!(table.trusted_gid(), None);
    table.set_trusted_gid(2000);
    assert_eq!(table.trusted_gid(), Some(2000));
}

#[test]
fn the_driver_reads_back_exactly_the_encoded_name() {
    let name = b"/system/fonts/x.ttf".to_vec();
    let req = hide_request(&name).unwrap();
    assert_eq!(hybrid_mount::hidectl::decode_name(&req.payload), name);
    // a buffer of NULs decodes to the empty name
    assert_eq!(hybrid_mount::hidectl::decode_name(&vec![0u8; 256]), Vec::<u8>::new());
}
