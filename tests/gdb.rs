use cornea::gdb::a64;
use cornea::gdb::t32;
use cornea::gdb::{
    kind_to_str, memory_bytes, monitor_action, monitor_action_for, parse_watch_kind,
    stop_reason_for, AddPlan, AddressTable, MonitorAction, Resume, ResumeAction, ResumeCommand,
    ResumeEvent, SlotRead, StopReason, WatchKind, WatchTrigger,
};
use cornea::resource::{memspace_resource, first_word, ResourceInfo, ResourceRead};

fn res(name: &str, id: u64) -> ResourceInfo {
    ResourceInfo {
        bit_width: 64,
        cname: name.to_string(),
        description: None,
        name: name.to_string(),
        parent_id: None,
        id,
        is_parameter: false,
        rw_mode: None,
    }
}

fn trigger(kind: &str, addr: u64, size: u64) -> Option<WatchTrigger> {
    Some(WatchTrigger { kind: kind.to_string(), addr, size })
}

fn watch_table(addrs: &[u64]) -> AddressTable {
    let mut t = AddressTable::new();
    for a in addrs {
        assert!(t.finish_add(*a, vec![100 + *a]));
    }
    t
}

#[test]
fn a64_register_round_trip() {
    let resources = vec![res("X0", 1), res("PC", 2), res("FOO", 3), res("CPSR", 4), res("X30", 5), res("SP", 6)];
    let plan = a64::register_plan(&resources);
    assert_eq!(
        plan,
        vec![
            SlotRead { resource: 1, slot: 0 },
            SlotRead { resource: 2, slot: 32 },
            SlotRead { resource: 4, slot: 33 },
            SlotRead { resource: 5, slot: 30 },
            SlotRead { resource: 6, slot: 31 },
        ]
    );
    let reads: Vec<ResourceRead> = [11u64, 22, 33, 44, 55].iter().map(|v| ResourceRead { data: vec![*v] }).collect();
    let mut regs = a64::GuestState::default();
    regs.apply_reads(&plan, &reads);
    for (i, r) in regs.regs.iter().enumerate() {
        let want = match i {
            0 => 11,
            32 => 22,
            33 => 33,
            30 => 44,
            31 => 55,
            _ => 0,
        };
        assert_eq!(*r, want, "slot {}", i);
    }
    assert_eq!(regs.pc(), 22);
}

#[test]
fn a64_empty_read_leaves_slot() {
    let plan = vec![SlotRead { resource: 1, slot: 3 }];
    let mut regs = a64::GuestState::default();
    regs.regs[3] = 9;
    regs.apply_reads(&plan, &vec![ResourceRead { data: vec![] }]);
    assert_eq!(regs.regs[3], 9);
}

#[test]
fn a64_serialize_layout() {
    let mut regs = a64::GuestState::default();
    regs.regs[0] = 0x0807060504030201;
    regs.regs[97] = 0xff;
    let b = regs.gdb_serialize();
    assert_eq!(b.len(), 98 * 8 + 4);
    assert_eq!(&b[0..8], &[1, 2, 3, 4, 5, 6, 7, 8]);
    assert_eq!(&b[97 * 8..97 * 8 + 8], &[0xff, 0, 0, 0, 0, 0, 0, 0]);
    assert_eq!(&b[98 * 8..], &[0, 0, 0, 0]);
    let mut back = a64::GuestState::default();
    assert_eq!(back.gdb_deserialize(&b[..98 * 8]), Ok(()));
    assert_eq!(back, regs);
}

#[test]
fn a64_deserialize_errors() {
    let mut regs = a64::GuestState::default();
    assert_eq!(regs.gdb_deserialize(&[1, 2, 3]), Err(()));
    assert_eq!(regs, a64::GuestState::default());
    assert_eq!(regs.gdb_deserialize(&[1, 0, 0, 0, 0, 0, 0, 0]), Err(()));
    assert_eq!(regs.regs[0], 1);
    assert_eq!(regs.regs[1], 0);
}

#[test]
fn a64_raw_ids() {
    assert_eq!(a64::Register::from_raw_id(0), Some((a64::Register::X(0), 0)));
    assert_eq!(a64::Register::from_raw_id(30), Some((a64::Register::X(30), 0)));
    assert_eq!(a64::Register::from_raw_id(31), Some((a64::Register::SP, 0)));
    assert_eq!(a64::Register::from_raw_id(32), Some((a64::Register::PC, 0)));
    assert_eq!(a64::Register::from_raw_id(33), Some((a64::Register::XPSR, 0)));
    assert_eq!(a64::Register::from_raw_id(34), None);
}

#[test]
fn t32_register_round_trip() {
    let resources = vec![res("R0", 1), res("R13", 2), res("R15", 3), res("XPSR", 4), res("R16", 5), res("SP", 6)];
    let plan = t32::register_plan(&resources);
    assert_eq!(
        plan,
        vec![
            SlotRead { resource: 1, slot: 0 },
            SlotRead { resource: 2, slot: 13 },
            SlotRead { resource: 3, slot: 15 },
            SlotRead { resource: 4, slot: 25 },
        ]
    );
    let reads: Vec<ResourceRead> = [7u64, 0x1_0000_0008, 0x8000, 0x0100_0000].iter().map(|v| ResourceRead { data: vec![*v] }).collect();
    let mut regs = t32::GuestState::default();
    regs.apply_reads(&plan, &reads);
    let mut want = [0u32; 26];
    want[0] = 7;
    want[13] = 8;
    want[15] = 0x8000;
    want[25] = 0x0100_0000;
    assert_eq!(regs.regs, want);
    assert_eq!(regs.pc(), 0x8000);
}

#[test]
fn t32_serialize_pads_fpu_slots() {
    let mut regs = t32::GuestState::default();
    regs.regs[15] = 0x04030201;
    regs.regs[16] = 0xaabbccdd;
    regs.regs[25] = 0x01000000;
    let b = regs.gdb_serialize();
    assert_eq!(b.len(), 26 * 4 + 8 * 8);
    assert_eq!(&b[60..64], &[1, 2, 3, 4]);
    assert_eq!(&b[64..76], &[0xdd, 0xcc, 0xbb, 0xaa, 0, 0, 0, 0, 0, 0, 0, 0]);
    assert_eq!(&b[b.len() - 4..], &[0, 0, 0, 1]);
}

#[test]
fn t32_deserialize_and_raw_ids() {
    let mut regs = t32::GuestState::default();
    let bytes: Vec<u8> = (0..26u32).flat_map(|i| i.to_le_bytes()).collect();
    assert_eq!(regs.gdb_deserialize(&bytes), Ok(()));
    assert_eq!(regs.regs[25], 25);
    assert_eq!(regs.gdb_deserialize(&bytes[..5]), Err(()));
    assert_eq!(t32::Register::from_raw_id(13), Some((t32::Register::SP, 0)));
    assert_eq!(t32::Register::from_raw_id(15), Some((t32::Register::PC, 0)));
    assert_eq!(t32::Register::from_raw_id(25), Some((t32::Register::XPSR, 0)));
    assert_eq!(t32::Register::from_raw_id(16), None);
    assert_eq!(t32::Register::from_raw_id(26), None);
}

#[test]
fn memory_read_a64_bytes() {
    let resources = vec![res("PC", 1), res("PC_MEMSPACE", 7)];
    assert_eq!(memspace_resource(&resources), Some(7));
    assert_eq!(memspace_resource(&vec![res("PC", 1)]), None);
    assert_eq!(first_word(&ResourceRead { data: vec![42] }), Some(42));
    assert_eq!(first_word(&ResourceRead { data: vec![] }), None);
    assert_eq!(memory_bytes(&vec![0x0807060504030201], 8), vec![1, 2, 3, 4, 5, 6, 7, 8]);
}

#[test]
fn memory_bytes_cut_and_pad() {
    assert_eq!(memory_bytes(&vec![0x0807060504030201], 3), vec![1, 2, 3]);
    assert_eq!(memory_bytes(&vec![0x0201], 10), vec![1, 2, 0, 0, 0, 0, 0, 0, 0, 0]);
    assert_eq!(memory_bytes(&vec![], 2), vec![0, 0]);
}

#[test]
fn breakpoint_add_and_remove_are_idempotent() {
    let mut t = AddressTable::new();
    let spaces = vec![0u64, 1];
    match t.plan_add(0x400, &spaces) {
        AddPlan::Install(v) => assert_eq!(v, spaces),
        AddPlan::AlreadySet => panic!("fresh address"),
    }
    assert!(t.finish_add(0x400, vec![31, 32]));
    assert!(matches!(t.plan_add(0x400, &spaces), AddPlan::AlreadySet));
    assert_eq!(t.plan_remove(0x400), Some(vec![31, 32]));
    assert!(t.finish_remove(0x400, true));
    assert_eq!(t.plan_remove(0x400), None);
    assert!(!t.contains(0x400));
}

#[test]
fn breakpoint_failures_keep_table() {
    let mut t = AddressTable::new();
    assert!(!t.finish_add(0x10, vec![]));
    assert!(!t.contains(0x10));
    assert!(t.finish_add(0x10, vec![5]));
    assert!(!t.finish_remove(0x10, false));
    assert_eq!(t.plan_remove(0x10), Some(vec![5]));
}

#[test]
fn watch_address_resolution() {
    let t = watch_table(&[0x1000, 0x2000]);
    assert_eq!(t.resolve_watch(0x3000, 4), 0x3000);
    assert_eq!(t.resolve_watch(0x0ffc, 8), 0x1000);
    assert_eq!(t.resolve_watch(0x1000, 0x2000), 0x1000);
    assert_eq!(t.resolve_watch(0x1001, 0x1000), 0x2000);
    // the window [0x1004, 0x1008) holds no watched address
    assert_eq!(t.resolve_watch(0x1004, 4), 0x1004);
    assert_eq!(t.resolve_watch(0x0ffc, 4), 0x0ffc);
    assert_eq!(t.resolve_watch(u64::MAX, u64::MAX), u64::MAX);
}

#[test]
fn watchpoint_hit_stop_reason() {
    let t = watch_table(&[0x8000]);
    assert_eq!(
        stop_reason_for(&trigger("w", 0x7ffc, 8), &t),
        StopReason::Watch { kind: WatchKind::Write, addr: 0x8000 }
    );
    // the window [0x8004, 0x8008) holds no watched address
    assert_eq!(
        stop_reason_for(&trigger("w", 0x8004, 4), &t),
        StopReason::Watch { kind: WatchKind::Write, addr: 0x8004 }
    );
    assert_eq!(
        stop_reason_for(&trigger("rw", 0x8000, 1), &t),
        StopReason::Watch { kind: WatchKind::ReadWrite, addr: 0x8000 }
    );
    assert_eq!(stop_reason_for(&trigger("x", 0x8000, 1), &t), StopReason::HwBreak);
    assert_eq!(stop_reason_for(&None, &t), StopReason::HwBreak);
}

#[test]
fn watch_kinds() {
    assert_eq!(parse_watch_kind(b"r"), Some(WatchKind::Read));
    assert_eq!(parse_watch_kind(b"w"), Some(WatchKind::Write));
    assert_eq!(parse_watch_kind(b"rw"), Some(WatchKind::ReadWrite));
    assert_eq!(parse_watch_kind(b"wr"), None);
    assert_eq!(kind_to_str(WatchKind::Read), "r");
    assert_eq!(kind_to_str(WatchKind::Write), "w");
    assert_eq!(kind_to_str(WatchKind::ReadWrite), "rw");
}

fn run(action: ResumeAction, events: Vec<ResumeEvent>, t: &AddressTable) -> Vec<ResumeCommand> {
    let mut r = Resume::new(action);
    events.into_iter().map(|e| r.next(e, t)).collect()
}

#[test]
fn interrupt_during_continue() {
    let t = AddressTable::new();
    let cmds = run(
        ResumeAction::Continue,
        vec![
            ResumeEvent::Begin,
            ResumeEvent::Done,
            ResumeEvent::Polled { running: true },
            ResumeEvent::Interrupt { pending: false },
            ResumeEvent::Polled { running: true },
            ResumeEvent::Interrupt { pending: true },
            ResumeEvent::Done,
            ResumeEvent::Done,
        ],
        &t,
    );
    assert_eq!(
        cmds,
        vec![
            ResumeCommand::Run,
            ResumeCommand::Poll,
            ResumeCommand::CheckInterrupt,
            ResumeCommand::SleepThenPoll,
            ResumeCommand::CheckInterrupt,
            ResumeCommand::Stop,
            ResumeCommand::Finish(StopReason::GdbInterrupt),
            ResumeCommand::Fail,
        ]
    );
    assert_eq!(cmds.iter().filter(|c| **c == ResumeCommand::Stop).count(), 1);
}

#[test]
fn step_and_continue_endings() {
    let t = watch_table(&[0x8000]);
    let step = run(
        ResumeAction::Step,
        vec![ResumeEvent::Begin, ResumeEvent::Done, ResumeEvent::Done, ResumeEvent::Polled { running: false }],
        &t,
    );
    assert_eq!(
        step,
        vec![ResumeCommand::SetupStep, ResumeCommand::Run, ResumeCommand::Poll, ResumeCommand::Finish(StopReason::DoneStep)]
    );
    let cont = run(
        ResumeAction::Continue,
        vec![
            ResumeEvent::Begin,
            ResumeEvent::Done,
            ResumeEvent::Polled { running: false },
            ResumeEvent::Trigger(trigger("rw", 0x8000, 4)),
        ],
        &t,
    );
    assert_eq!(cont[2], ResumeCommand::TakeTrigger);
    assert_eq!(cont[3], ResumeCommand::Finish(StopReason::Watch { kind: WatchKind::ReadWrite, addr: 0x8000 }));
    let plain = run(
        ResumeAction::Continue,
        vec![ResumeEvent::Begin, ResumeEvent::Done, ResumeEvent::Polled { running: false }, ResumeEvent::Trigger(None)],
        &t,
    );
    assert_eq!(plain[3], ResumeCommand::Finish(StopReason::HwBreak));
    let sig = run(ResumeAction::ContinueWithSignal(5), vec![ResumeEvent::Begin], &t);
    assert_eq!(sig, vec![ResumeCommand::Fail]);
}

#[test]
fn monitor_reset() {
    assert!(matches!(monitor_action(b"reset"), MonitorAction::Reset));
    assert!(matches!(monitor_action_for("reset"), MonitorAction::Reset));
    match monitor_action(b"halt") {
        MonitorAction::Unsupported(line) => assert_eq!(line, b"Monitor command halt not supported\n".to_vec()),
        MonitorAction::Reset => panic!("not a reset"),
    }
    match monitor_action(b"reset ") {
        MonitorAction::Unsupported(line) => assert_eq!(line, b"Monitor command reset  not supported\n".to_vec()),
        MonitorAction::Reset => panic!("not a reset"),
    }
}

#[test]
fn monitor_decodes_invalid_utf8_lossily() {
    match monitor_action(&[b'a', 0xff]) {
        MonitorAction::Unsupported(line) => {
            assert_eq!(line, b"Monitor command a\xef\xbf\xbd not supported\n".to_vec())
        }
        MonitorAction::Reset => panic!("not a reset"),
    }
}
