use inka::hook::{write_patch, Hook, HookError, HookGuard, HookTable, PROLOGUE_SIZE};
use inka::Base;
use std::sync::atomic::{AtomicUsize, Ordering};
use std::sync::{Arc, Mutex};

fn code_of(fill: u8) -> Vec<u8> {
    let mut code = vec![fill; 32];
    for i in 0..PROLOGUE_SIZE {
        code[i] = i as u8;
    }
    code
}

fn install(table: &mut HookTable, addr: usize, code: &[u8]) -> Result<HookGuard, HookError> {
    let target = Base::new(addr).unwrap();
    target.hook(table, &code[..PROLOGUE_SIZE], || {})
}

#[test]
fn write_patch_round_trip() {
    let original = code_of(0x90);
    let mut code = original.clone();
    let patch = [0xcc; PROLOGUE_SIZE];
    let saved = write_patch(&mut code, 0, &patch);
    assert_eq!(&saved[..], &original[..PROLOGUE_SIZE]);
    assert_eq!(&code[..PROLOGUE_SIZE], &patch[..]);
    assert_eq!(&code[PROLOGUE_SIZE..], &original[PROLOGUE_SIZE..]);
    let displaced = write_patch(&mut code, 0, &saved);
    assert_eq!(&displaced[..], &patch[..]);
    assert_eq!(code, original);
}

#[test]
fn write_patch_in_the_middle() {
    let mut code = vec![7u8; 8];
    let saved = write_patch(&mut code, 3, &[1, 2]);
    assert_eq!(saved, vec![7, 7]);
    assert_eq!(code, vec![7, 7, 7, 1, 2, 7, 7, 7]);
}

#[test]
fn hook_saves_the_prologue() {
    let mut table = HookTable::new();
    let code = code_of(0x90);
    let guard = install(&mut table, 0x7000, &code).unwrap();
    assert!(guard.is_armed());
    assert_eq!(guard.target().addr(), 0x7000);
    assert_eq!(&guard.saved()[..], &code[..PROLOGUE_SIZE]);
    assert!(table.hooked(Base::new(0x7000).unwrap()));
}

#[test]
fn hooking_a_hooked_target_fails() {
    let mut table = HookTable::new();
    let code = code_of(0x90);
    let _guard = install(&mut table, 0x7000, &code).unwrap();
    let err = install(&mut table, 0x7000, &code).unwrap_err();
    assert_eq!(err, HookError::AlreadyHooked);
}

#[test]
fn unhook_twice_is_a_noop_and_restores_once() {
    let mut table = HookTable::new();
    let original = code_of(0x90);
    let mut code = original.clone();
    let mut guard = install(&mut table, 0x7000, &code).unwrap();
    write_patch(&mut code, 0, &[0xcc; PROLOGUE_SIZE]);
    assert_ne!(code, original);

    // first release: restore the displaced bytes, exactly as the engine does
    guard.unhook(&mut table);
    assert!(!guard.is_armed());
    assert!(!table.hooked(Base::new(0x7000).unwrap()));
    write_patch(&mut code, 0, &guard.saved().clone());
    assert_eq!(code, original);

    // second release: a no-op, and no second restoration
    guard.unhook(&mut table);
    assert!(!guard.is_armed());
    assert_eq!(code, original);
}

#[test]
fn distinct_targets_use_distinct_slots() {
    let mut table = HookTable::new();
    let original_a = code_of(0xa0);
    let original_b = code_of(0xb0);
    let mut code_a = original_a.clone();
    let mut code_b = original_b.clone();

    let mut guard_a = install(&mut table, 0x7000, &code_a).unwrap();
    let mut guard_b = install(&mut table, 0x8000, &code_b).unwrap();
    assert_ne!(guard_a.slot(), guard_b.slot());
    assert_eq!(&guard_a.saved()[..], &original_a[..PROLOGUE_SIZE]);
    assert_eq!(&guard_b.saved()[..], &original_b[..PROLOGUE_SIZE]);

    write_patch(&mut code_a, 0, &[0xcc; PROLOGUE_SIZE]);
    write_patch(&mut code_b, 0, &[0xdd; PROLOGUE_SIZE]);

    // each guard restores only its own target's bytes
    guard_a.unhook(&mut table);
    write_patch(&mut code_a, 0, &guard_a.saved().clone());
    assert_eq!(code_a, original_a);
    assert_ne!(code_b, original_b);
    assert!(!table.hooked(Base::new(0x7000).unwrap()));
    assert!(table.hooked(Base::new(0x8000).unwrap()));

    guard_b.unhook(&mut table);
    write_patch(&mut code_b, 0, &guard_b.saved().clone());
    assert_eq!(code_b, original_b);
    assert!(!table.hooked(Base::new(0x8000).unwrap()));
}

#[test]
fn invoke_runs_the_stored_logic() {
    let mut table = HookTable::new();
    let counter = Arc::new(AtomicUsize::new(0));
    let seen = counter.clone();
    let target = Base::new(0x9000).unwrap();
    let code = code_of(0x90);
    let mut guard = target
        .hook(&mut table, &code[..PROLOGUE_SIZE], move || {
            seen.fetch_add(1, Ordering::SeqCst);
        })
        .unwrap();

    assert!(table.invoke(guard.slot()));
    assert!(table.invoke(guard.slot()));
    assert_eq!(counter.load(Ordering::SeqCst), 2);

    guard.unhook(&mut table);
    assert!(!table.invoke(guard.slot()));
    assert_eq!(counter.load(Ordering::SeqCst), 2);
}

#[test]
fn hooked_behavior_switches_and_comes_back() {
    // the original function prints "Original"; the replacement prints
    // "Hooked"; invoking the target observes the switch and the restoration
    let log: Arc<Mutex<Vec<&'static str>>> = Arc::new(Mutex::new(Vec::new()));
    let original = {
        let log = log.clone();
        move || log.lock().unwrap().push("Original")
    };
    let replacement_log = log.clone();

    let mut table = HookTable::new();
    let target = Base::new(0xa000).unwrap();
    let code = code_of(0x90);

    let call_target = |table: &mut HookTable, slot: Option<usize>| {
        match slot {
            Some(s) if table.invoke(s) => {},
            _ => original(),
        }
    };

    call_target(&mut table, None);
    let mut guard = target
        .hook(&mut table, &code[..PROLOGUE_SIZE], move || {
            replacement_log.lock().unwrap().push("Hooked");
        })
        .unwrap();
    call_target(&mut table, Some(guard.slot()));
    guard.unhook(&mut table);
    call_target(&mut table, Some(guard.slot()));

    assert_eq!(*log.lock().unwrap(), vec!["Original", "Hooked", "Original"]);
}
