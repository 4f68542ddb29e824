use ssb64_utils::bass::flatten;

#[test]
fn bass_flatten_lines() {
    let input = "80400000 boot.data.hitboxFlags
800f2c00 boot.hook.beginning
not a symbol line
zz000000 bad.address
80032604 loader.bootDMA";
    assert_eq!(
        flatten(input),
        "MEM 0x80400000: boot.data.hitboxFlags
CPU 0x800F2C00: boot.hook.beginning
CPU 0x80032604: loader.bootDMA"
    );
}

#[test]
fn bass_data_needs_dots_on_both_sides() {
    assert_eq!(flatten("80400000 boot.data"), "CPU 0x80400000: boot.data");
    assert_eq!(flatten("80400000 data.boot"), "CPU 0x80400000: data.boot");
    assert_eq!(flatten("80400000 a.data.b"), "MEM 0x80400000: a.data.b");
}

#[test]
fn bass_flatten_keeps_duplicates_in_order() {
    assert_eq!(
        flatten("80000004 b\n80000000 a\n80000004 b"),
        "CPU 0x80000004: b\nCPU 0x80000000: a\nCPU 0x80000004: b"
    );
    assert_eq!(flatten(""), "");
}
