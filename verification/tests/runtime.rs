use metasafe::runtime::{metasafe_extern_stack_run, metasafe_shadow_free, SHADOW_ADDR, SHADOW_MASK, SHADOW_SIZE};

#[test]
fn extern_stack_run_returns_the_routine_result() {
    let x = 20u64;
    let r = metasafe_extern_stack_run(move || x * 2 + 2);
    assert_eq!(r, 42);
    let s = metasafe_extern_stack_run(|| String::from("ffi"));
    assert_eq!(s, "ffi");
}

#[test]
fn shadow_constants() {
    assert_eq!(SHADOW_ADDR, 0x510000000000);
    assert_eq!(SHADOW_SIZE, 0x20000000000);
    assert_eq!(SHADOW_MASK + 1, SHADOW_SIZE);
    metasafe_shadow_free();
}
