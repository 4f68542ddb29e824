use ssb64_utils::flat::flatten;
use ssb64_utils::nemu::MemType;
use ssb64_utils::nest::{nester, scope_and_nest_line};

const INPUT: &'static str = "80400000 boot.data.hitboxFlags
80400004 boot.render
80400004 boot.render.model
80171f4c boot.draw.Bobomb.prologue";
const ZERO_SCOPE_NONE_NEST: &'static str = "boot
\tdata
\t\tMEM 0x80400000: hitboxFlags
\tdraw
\t\tBobomb
\t\t\tCPU 0x80171F4C: prologue
\trender
\t\tCPU 0x80400004: model
\tCPU 0x80400004: render";

const ONE_SCOPE_NONE_NEST: &'static str = "boot
\tdraw
\t\tCPU 0x80171F4C: Bobomb.prologue
\tCPU 0x80400004: render.model
\tMEM 0x80400000: data.hitboxFlags
CPU 0x80400004: boot.render";
const TWO_SCOPE_NONE_NEST: &'static str = "boot
\tCPU 0x80171F4C: draw.Bobomb.prologue
CPU 0x80400004: boot.render
CPU 0x80400004: boot.render.model
MEM 0x80400000: boot.data.hitboxFlags";
const THREE_SCOPE_NONE_NEST: &'static str = "CPU 0x80171F4C: boot.draw.Bobomb.prologue
CPU 0x80400004: boot.render
CPU 0x80400004: boot.render.model
MEM 0x80400000: boot.data.hitboxFlags";

const ZERO_SCOPE_ZERO_NEST: &'static str = "CPU 0x80171F4C: boot.draw.Bobomb.prologue
CPU 0x80400004: boot.render
CPU 0x80400004: boot.render.model
MEM 0x80400000: boot.data.hitboxFlags";
const ZERO_SCOPE_ONE_NEST: &'static str = "boot
\tCPU 0x80171F4C: draw.Bobomb.prologue
\tCPU 0x80400004: render
\tCPU 0x80400004: render.model
\tMEM 0x80400000: data.hitboxFlags";
const ZERO_SCOPE_TWO_NEST: &'static str = "boot
\tdata
\t\tMEM 0x80400000: hitboxFlags
\tdraw
\t\tCPU 0x80171F4C: Bobomb.prologue
\trender
\t\tCPU 0x80400004: model
\tCPU 0x80400004: render";

#[test]
fn substrs_tests() {
    let strs = vec!["80400000".to_string(), "boot.data.1.2.3.4.hitboxFlag".to_string()];
    let expected = (MemType::RAM, 0x80400000, vec!["boot", "data", "1", "2.3.4.hitboxFlag"]);

    let output = scope_and_nest_line(strs, 1, Some(3), "data").unwrap();

    assert_eq!(output.0, expected.0);
    assert_eq!(output.1, expected.1);
    assert_eq!(output.2, expected.2);
}

#[test]
fn single_nest_input() {
    assert_eq!(nester("80400000 boot.data.hitboxFlags", 0, Some(0), "data").trim(),
                "MEM 0x80400000: boot.data.hitboxFlags");

    assert_eq!(nester("80400000 boot.data.hitboxFlags", 0, Some(1), "data").trim(),
                "boot
\tMEM 0x80400000: data.hitboxFlags");
    assert_eq!(nester("80400000 boot.data.hitboxFlags", 0, Some(2), "data").trim(),
                "boot
\tdata
\t\tMEM 0x80400000: hitboxFlags");
    assert_eq!(nester("80400000 boot.data.hitboxFlags", 0, None, "data").trim(),
                "boot
\tdata
\t\tMEM 0x80400000: hitboxFlags");
}

#[test]
fn data_filter_strings() {
    assert_eq!(nester("80400000 boot.data.hitboxFlags", 0, Some(0), "data").trim(),
                "MEM 0x80400000: boot.data.hitboxFlags");
    assert_eq!(nester("80400000 boot.data.hitboxFlags", 0, Some(0), "").trim(),
                "CPU 0x80400000: boot.data.hitboxFlags");
    assert_eq!(nester("80400000 boot.data.hitboxFlags", 0, Some(0), "boot").trim(),
                "MEM 0x80400000: boot.data.hitboxFlags");
    assert_eq!(nester("80400000 boot.data.hitboxFlags", 0, Some(0), "hitbox").trim(),
                "CPU 0x80400000: boot.data.hitboxFlags");
    assert_eq!(nester("80400000 boot.data.hitboxFlags", 0, Some(0), "hitboxFlags").trim(),
                "MEM 0x80400000: boot.data.hitboxFlags");
    assert_eq!(nester("80123456 1.2.3.4.symbol", 0, Some(0), "1").trim(),
                "MEM 0x80123456: 1.2.3.4.symbol");
}

#[test]
fn full_nesting_scopes() {
    assert_eq!(nester(INPUT, 0, None, "data").trim(), ZERO_SCOPE_NONE_NEST);
    assert_eq!(nester(INPUT, 1, None, "data").trim(), ONE_SCOPE_NONE_NEST);
    assert_eq!(nester(INPUT, 2, None, "data").trim(), TWO_SCOPE_NONE_NEST);
    assert_eq!(nester(INPUT, 3, None, "data").trim(), THREE_SCOPE_NONE_NEST);
    assert_eq!(nester(INPUT, 10, None, "data").trim(), THREE_SCOPE_NONE_NEST);
}

#[test]
fn full_nesting_nests() {
    assert_eq!(nester(INPUT, 0, None, "data").trim(), ZERO_SCOPE_NONE_NEST);
    assert_eq!(nester(INPUT, 0, Some(0), "data").trim(), ZERO_SCOPE_ZERO_NEST);
    assert_eq!(nester(INPUT, 0, Some(1), "data").trim(), ZERO_SCOPE_ONE_NEST);
    assert_eq!(nester(INPUT, 0, Some(2), "data").trim(), ZERO_SCOPE_TWO_NEST);
    assert_eq!(nester(INPUT, 0, Some(3), "data").trim(), ZERO_SCOPE_NONE_NEST);
    assert_eq!(nester(INPUT, 0, Some(10), "data").trim(), ZERO_SCOPE_NONE_NEST);
}

#[test]
fn nester_skips_lines_without_a_hex_address() {
    let text = "zz boot.render\n80400004 boot.render\nonly_one_word\n";
    assert_eq!(nester(text, 0, None, "data"), "boot\n\tCPU 0x80400004: render\n");
}

#[test]
fn nester_of_empty_text_is_empty() {
    assert_eq!(nester("", 0, None, "data"), "");
}

#[test]
fn scope_and_nest_line_rejects_non_hex() {
    let strs = vec!["8040zz00".to_string(), "boot.data".to_string()];
    assert!(scope_and_nest_line(strs, 0, None, "data").is_none());
}

#[test]
fn nest_zero_lists_every_symbol_sorted() {
    let mut lines: Vec<String> = flatten(INPUT, "data", true).lines().map(|l| l.to_string()).collect();
    lines.sort();
    let expected = lines.join("\n") + "\n";
    assert_eq!(nester(INPUT, 0, Some(0), "data"), expected);
    assert_eq!(nester(INPUT, 2, Some(0), "data"), expected);
}

#[test]
fn scope_and_nest_examples_of_the_help_text() {
    let sym = "80001000 fn.main_menu.init.loadAssets";
    assert_eq!(nester(sym, 1, None, "data"), "fn\n\tmain_menu\n\t\tCPU 0x80001000: init.loadAssets\n");
    assert_eq!(nester(sym, 3, None, "data"), "CPU 0x80001000: fn.main_menu.init.loadAssets\n");
    assert_eq!(nester(sym, 0, None, "data"), "fn\n\tmain_menu\n\t\tinit\n\t\t\tCPU 0x80001000: loadAssets\n");
    assert_eq!(nester(sym, 0, Some(0), "data"), "CPU 0x80001000: fn.main_menu.init.loadAssets\n");
    assert_eq!(nester(sym, 0, Some(1), "data"), "fn\n\tCPU 0x80001000: main_menu.init.loadAssets\n");
    assert_eq!(nester(sym, 0, Some(3), "data"), "fn\n\tmain_menu\n\t\tinit\n\t\t\tCPU 0x80001000: loadAssets\n");
}

#[test]
fn folders_come_in_name_order_before_bookmarks() {
    let text = "80000002 b.y\n80000001 a.x\n80000003 c\n80000000 b.w";
    assert_eq!(
        nester(text, 0, None, "data"),
        "a\n\tCPU 0x80000001: x\nb\n\tCPU 0x80000000: w\n\tCPU 0x80000002: y\nCPU 0x80000003: c\n"
    );
}

#[test]
fn nester_ignores_line_order() {
    let a = "80400000 boot.data.flags\n80000400 boot.start\n80001000 main.loop\n80000800 boot.init\n";
    let b = "80001000 main.loop\n80000800 boot.init\n80400000 boot.data.flags\n80000400 boot.start\n";
    for nest in [None, Some(0usize), Some(1), Some(2)] {
        assert_eq!(nester(a, 0, nest, "data"), nester(b, 0, nest, "data"));
        assert_eq!(nester(a, 1, nest, "data"), nester(b, 1, nest, "data"));
    }
    assert!(nester(a, 0, None, "data").starts_with("boot\n"));
    // empty lines and a missing last newline change nothing either
    let c = "\n80001000 main.loop\n\n80000800 boot.init\n80400000 boot.data.flags\n\n80000400 boot.start";
    for nest in [None, Some(0usize), Some(1), Some(2)] {
        assert_eq!(nester(a, 0, nest, "data"), nester(c, 0, nest, "data"));
    }
}
