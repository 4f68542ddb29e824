use ssb64_utils::flat::flatten;

const VALIDINPUT: &'static str = "80400000 boot.data.hitboxFlags
800f2c00 boot.hook.beginning
800f3650 boot.hook.end
80400004 boot.render
80400004 boot.render.model
80171f4c boot.drawBobomb.prologue
80171f78 boot.drawBobomb.get_hitbox_flag_state
80171f80 boot.drawBobomb.model_check
80171f8c boot.drawBobomb.draw_model
80171f94 boot.drawBobomb.hitbox_checks
80171fc4 boot.drawBobomb.draw_hitbox
80171fcc boot.drawBobomb.epilogue
80032604 loader.bootDMA";

const VALIDOUTPUT: &'static str = "MEM 0x80400000: boot.data.hitboxFlags
CPU 0x800F2C00: boot.hook.beginning
CPU 0x800F3650: boot.hook.end
CPU 0x80400004: boot.render
CPU 0x80400004: boot.render.model
CPU 0x80171F4C: boot.drawBobomb.prologue
CPU 0x80171F78: boot.drawBobomb.get_hitbox_flag_state
CPU 0x80171F80: boot.drawBobomb.model_check
CPU 0x80171F8C: boot.drawBobomb.draw_model
CPU 0x80171F94: boot.drawBobomb.hitbox_checks
CPU 0x80171FC4: boot.drawBobomb.draw_hitbox
CPU 0x80171FCC: boot.drawBobomb.epilogue
CPU 0x80032604: loader.bootDMA";
const DEDUP_OUTPUT: &'static str = "CPU 0x80032604: loader.bootDMA
CPU 0x800F2C00: boot.hook.beginning
CPU 0x800F3650: boot.hook.end
CPU 0x80171F4C: boot.drawBobomb.prologue
CPU 0x80171F78: boot.drawBobomb.get_hitbox_flag_state
CPU 0x80171F80: boot.drawBobomb.model_check
CPU 0x80171F8C: boot.drawBobomb.draw_model
CPU 0x80171F94: boot.drawBobomb.hitbox_checks
CPU 0x80171FC4: boot.drawBobomb.draw_hitbox
CPU 0x80171FCC: boot.drawBobomb.epilogue
CPU 0x80400004: boot.render
MEM 0x80400000: boot.data.hitboxFlags";

const DATATEST: &'static str = "804000A0 test.data.globalVar";
const CORRECT_DATATEST: &'static str = "MEM 0x804000A0: test.data.globalVar";

const NOTDATATEST: &'static str = "804000A0 test.dataGlobalVar";
const CORRECT_NOTDATATEST: &'static str = "CPU 0x804000A0: test.dataGlobalVar";

#[test]
fn correct_flatten() {
    assert_eq!(flatten(VALIDINPUT, "data", true), VALIDOUTPUT);

    assert_eq!(flatten(DATATEST, "data", true), CORRECT_DATATEST);

    assert_eq!(flatten(NOTDATATEST, "data", true), CORRECT_NOTDATATEST);
}

#[test]
fn flatten_duplicates() {
    let temp = flatten(VALIDINPUT, "data", false);

    assert_eq!(temp, DEDUP_OUTPUT);
}

#[test]
fn flatten_skips_lines_that_are_not_symbols() {
    let input = "zz12 name\n80000000 a b\n\n  80000010\tfoo.bar  \r\n+10 plus\n100000000 big";
    assert_eq!(
        flatten(input, "data", true),
        "CPU 0x80000010: foo.bar\nCPU 0x00000010: plus"
    );
}

#[test]
fn flatten_empty_input() {
    assert_eq!(flatten("", "data", true), "");
    assert_eq!(flatten("", "data", false), "");
}
