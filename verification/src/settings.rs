//! The settings aggregate: a bulk snapshot of the keyboard's configuration.
//!
//! A snapshot read performs one ordered protocol query per field. Mandatory
//! fields exist on all supported hardware and propagate their error;
//! hardware- or firmware-dependent fields are read tolerantly, a failure
//! becoming `None` rather than aborting the transaction. A snapshot write
//! mirrors the read: one command per mandatory field, one per optional
//! field that is present. Writing is not transactional: a failure partway
//! leaves the device holding a mix of old and new values, an accepted
//! limitation of the firmware protocol. The contracts pin the transaction's
//! discipline three ways: the ledger grows only by the fixed command
//! vocabulary, its growth follows the transaction's fixed order (a
//! subsequence of the full command list), and a successful transaction has
//! issued every command it owes.

use vstd::prelude::*;

use crate::color::flat_rgb;
use crate::color::flat_rgbw;
use crate::color::RGB;
use crate::color::RGBW;
use crate::engine::line_cmd;
use crate::engine::Focus;
use crate::enums::LedMode;
use crate::enums::WirelessPowerMode;
use crate::error::FocusError;
use crate::numeric::dec_repr;
use crate::numeric::encode_list;
use crate::numeric::WireNumber;
use crate::transport::Transport;
use crate::MAX_LAYERS;

verus! {

/// A complete configuration snapshot. Mandatory fields exist on every
/// supported keyboard; `Option` fields depend on the hardware or firmware
/// and are `None` only when the corresponding read failed.
#[derive(Debug, Clone, PartialEq, Eq)]
pub struct Settings {
    pub keymap_custom: Vec<u16>,
    pub keymap_default: Vec<u16>,
    pub keymap_only_custom: bool,
    pub settings_default_layer: u8,
    pub superkeys_map: Vec<u16>,
    pub superkeys_wait_for: u16,
    pub superkeys_timeout: u16,
    pub superkeys_repeat: u16,
    pub superkeys_hold_start: u16,
    pub superkeys_overlap: u8,
    pub led_mode: LedMode,
    pub led_brightness_keys_wired: u8,
    pub led_brightness_underglow_wired: Option<u8>,
    pub led_brightness_keys_wireless: Option<u8>,
    pub led_brightness_underglow_wireless: Option<u8>,
    pub led_fade: Option<u16>,
    pub led_theme: Vec<RGB>,
    pub palette_rgb: Option<Vec<RGB>>,
    pub palette_rgbw: Option<Vec<RGBW>>,
    pub color_map: Vec<u8>,
    pub led_idle_true_sleep: Option<bool>,
    pub led_idle_true_sleep_time: Option<u16>,
    pub led_idle_time_limit_wired: u16,
    pub led_idle_time_limit_wireless: Option<u16>,
    pub qukeys_hold_timeout: u16,
    pub qukeys_overlap_threshold: u16,
    pub macros_map: Vec<u8>,
    pub mouse_speed: u8,
    pub mouse_delay: u16,
    pub mouse_acceleration_speed: u8,
    pub mouse_acceleration_delay: u16,
    pub mouse_wheel_speed: u8,
    pub mouse_wheel_delay: u16,
    pub mouse_speed_limit: u8,
    pub wireless_battery_saving_mode: Option<bool>,
    pub wireless_rf_power_level: Option<WirelessPowerMode>,
    pub wireless_rf_channel_hop: Option<bool>,
}

/// The session's ledger grew only by commands the vocabulary allows.
pub open spec fn extended_only_by<T: Transport>(
    pre: Focus<T>,
    post: Focus<T>,
    allowed: spec_fn(Seq<u8>) -> bool,
) -> bool {
    pre.writes().is_prefix_of(post.writes()) && (forall|i: int|
        pre.writes().len() <= i < post.writes().len() ==> allowed(#[trigger] post.writes()[i]))
}

/// Every one of these commands stands in the ledger's growth between the
/// two states.
pub open spec fn issued_all<T: Transport>(
    pre: Focus<T>,
    post: Focus<T>,
    cmds: Seq<Seq<u8>>,
) -> bool {
    forall|k: int|
        0 <= k < cmds.len() ==> post.writes().skip(pre.writes().len() as int).contains(
            #[trigger] cmds[k],
        )
}

/// The commands actually written form an in-order selection from the
/// transaction's fixed command list: order is kept, entries may be skipped,
/// nothing is repeated or reordered.
pub open spec fn is_subsequence_of(a: Seq<Seq<u8>>, b: Seq<Seq<u8>>) -> bool
    decreases b.len(),
{
    if a.len() == 0 {
        true
    } else if b.len() == 0 {
        false
    } else {
        (a.last() == b.last() && is_subsequence_of(a.drop_last(), b.drop_last()))
            || is_subsequence_of(a, b.drop_last())
    }
}

/// A selection from a list is a selection from the list with one more entry.
pub proof fn lemma_subseq_extend(a: Seq<Seq<u8>>, b: Seq<Seq<u8>>, x: Seq<u8>)
    requires
        is_subsequence_of(a, b),
    ensures
        is_subsequence_of(a, b.push(x)),
{
    if a.len() > 0 {
        assert(b.push(x).drop_last() =~= b);
    }
}

/// Taking the next entry keeps an in-order selection in order.
pub proof fn lemma_subseq_push_both(a: Seq<Seq<u8>>, b: Seq<Seq<u8>>, x: Seq<u8>)
    requires
        is_subsequence_of(a, b),
    ensures
        is_subsequence_of(a.push(x), b.push(x)),
{
    assert(a.push(x).last() == b.push(x).last());
    assert(a.push(x).drop_last() =~= a);
    assert(b.push(x).drop_last() =~= b);
}

/// A selection from a list prefix is a selection from the whole list.
pub proof fn lemma_subseq_of_take(a: Seq<Seq<u8>>, b: Seq<Seq<u8>>, k: int)
    requires
        0 <= k <= b.len(),
        is_subsequence_of(a, b.take(k)),
    ensures
        is_subsequence_of(a, b),
    decreases b.len() - k,
{
    if k < b.len() {
        lemma_subseq_extend(a, b.take(k), b[k]);
        assert(b.take(k + 1) =~= b.take(k).push(b[k]));
        lemma_subseq_of_take(a, b, k + 1);
    } else {
        assert(b.take(k) =~= b);
    }
}

/// A selection from a list is a selection from the list with more appended.
pub proof fn lemma_subseq_append(a: Seq<Seq<u8>>, b: Seq<Seq<u8>>, c: Seq<Seq<u8>>)
    requires
        is_subsequence_of(a, b),
    ensures
        is_subsequence_of(a, b + c),
    decreases c.len(),
{
    if c.len() == 0 {
        assert(b + c =~= b);
    } else {
        lemma_subseq_append(a, b, c.drop_last());
        lemma_subseq_extend(a, b + c.drop_last(), c.last());
        assert((b + c.drop_last()).push(c.last()) =~= b + c);
    }
}

/// In-order selections from adjoining lists concatenate.
pub proof fn lemma_subseq_concat(
    a1: Seq<Seq<u8>>,
    b1: Seq<Seq<u8>>,
    a2: Seq<Seq<u8>>,
    b2: Seq<Seq<u8>>,
)
    requires
        is_subsequence_of(a1, b1),
        is_subsequence_of(a2, b2),
    ensures
        is_subsequence_of(a1 + a2, b1 + b2),
    decreases b2.len(),
{
    if a2.len() == 0 {
        assert(a1 + a2 =~= a1);
        lemma_subseq_append(a1, b1, b2);
    } else {
        if a2.last() == b2.last() && is_subsequence_of(a2.drop_last(), b2.drop_last()) {
            lemma_subseq_concat(a1, b1, a2.drop_last(), b2.drop_last());
            lemma_subseq_push_both(a1 + a2.drop_last(), b1 + b2.drop_last(), a2.last());
            assert((a1 + a2.drop_last()).push(a2.last()) =~= a1 + a2);
            assert((b1 + b2.drop_last()).push(b2.last()) =~= b1 + b2);
        } else {
            assert(is_subsequence_of(a2, b2.drop_last()));
            lemma_subseq_concat(a1, b1, a2, b2.drop_last());
            lemma_subseq_extend(a1 + a2, b1 + b2.drop_last(), b2.last());
            assert((b1 + b2.drop_last()).push(b2.last()) =~= b1 + b2);
        }
    }
}

/// Doing nothing, or sending the ordered list's next command, keeps the
/// ledger within the vocabulary and in order; a step that pushes a command
/// also records it as issued.
pub proof fn lemma_step<T: Transport>(
    a: Focus<T>,
    b: Focus<T>,
    c: Focus<T>,
    cmd: Seq<u8>,
    allowed: spec_fn(Seq<u8>) -> bool,
    issued: Seq<Seq<u8>>,
    ordered: Seq<Seq<u8>>,
    k: int,
)
    requires
        extended_only_by(a, b, allowed),
        issued_all(a, b, issued),
        is_subsequence_of(b.writes().skip(a.writes().len() as int), ordered.take(k)),
        0 <= k < ordered.len(),
        ordered[k] == cmd,
        c.writes() == b.writes() || c.writes() == b.writes().push(cmd),
        allowed(cmd),
    ensures
        extended_only_by(a, c, allowed),
        issued_all(a, c, issued),
        c.writes() == b.writes().push(cmd) ==> issued_all(a, c, issued.push(cmd)),
        is_subsequence_of(c.writes().skip(a.writes().len() as int), ordered.take(k + 1)),
{
    let la = a.writes().len() as int;
    assert(ordered.take(k + 1) =~= ordered.take(k).push(cmd));
    if c.writes() == b.writes().push(cmd) {
        assert(a.writes() =~= c.writes().subrange(0, la));
        assert forall|i: int|
            la <= i < c.writes().len() implies allowed(#[trigger] c.writes()[i]) by {
            if i < b.writes().len() {
                assert(c.writes()[i] == b.writes()[i]);
            } else {
                assert(c.writes()[i] == cmd);
            }
        }
        assert(c.writes().skip(la) =~= b.writes().skip(la).push(cmd));
        assert forall|q: int|
            0 <= q < issued.len() implies c.writes().skip(la).contains(
            #[trigger] issued[q],
        ) by {
            let w = choose|j: int|
                0 <= j < b.writes().skip(la).len() && b.writes().skip(la)[j] == issued[q];
            assert(c.writes().skip(la)[w] == issued[q]);
        }
        assert(c.writes().skip(la).last() == cmd);
        assert(c.writes().skip(la).contains(cmd));
        lemma_subseq_push_both(b.writes().skip(la), ordered.take(k), cmd);
    } else {
        lemma_subseq_extend(b.writes().skip(la), ordered.take(k), cmd);
    }
}

/// A guarded exchange that may push one command, or that command and a
/// follow-up, stays within the vocabulary and in order; when anything was
/// pushed, the first command was issued.
pub proof fn lemma_step2<T: Transport>(
    a: Focus<T>,
    b: Focus<T>,
    c: Focus<T>,
    cmd1: Seq<u8>,
    cmd2: Seq<u8>,
    allowed: spec_fn(Seq<u8>) -> bool,
    issued: Seq<Seq<u8>>,
    ordered: Seq<Seq<u8>>,
    k: int,
)
    requires
        extended_only_by(a, b, allowed),
        issued_all(a, b, issued),
        is_subsequence_of(b.writes().skip(a.writes().len() as int), ordered.take(k)),
        0 <= k,
        k + 2 <= ordered.len(),
        ordered[k] == cmd1,
        ordered[k + 1] == cmd2,
        c.writes() == b.writes() || c.writes() == b.writes().push(cmd1) || c.writes()
            == b.writes().push(cmd1).push(cmd2),
        allowed(cmd1),
        allowed(cmd2),
    ensures
        extended_only_by(a, c, allowed),
        issued_all(a, c, issued),
        c.writes() == b.writes().push(cmd1) || c.writes() == b.writes().push(cmd1).push(cmd2)
            ==> issued_all(a, c, issued.push(cmd1)),
        is_subsequence_of(c.writes().skip(a.writes().len() as int), ordered.take(k + 2)),
{
    let la = a.writes().len() as int;
    assert(ordered.take(k + 1) =~= ordered.take(k).push(cmd1));
    assert(ordered.take(k + 2) =~= ordered.take(k + 1).push(cmd2));
    if c.writes() == b.writes() {
        lemma_subseq_extend(b.writes().skip(la), ordered.take(k), cmd1);
        lemma_subseq_extend(b.writes().skip(la), ordered.take(k + 1), cmd2);
    } else if c.writes() == b.writes().push(cmd1) {
        lemma_step(a, b, c, cmd1, allowed, issued, ordered, k);
        lemma_subseq_extend(c.writes().skip(la), ordered.take(k + 1), cmd2);
    } else {
        assert(a.writes() =~= c.writes().subrange(0, la));
        assert forall|i: int|
            la <= i < c.writes().len() implies allowed(#[trigger] c.writes()[i]) by {
            if i < b.writes().len() {
                assert(c.writes()[i] == b.writes()[i]);
            } else if i == b.writes().len() {
                assert(c.writes()[i] == cmd1);
            } else {
                assert(c.writes()[i] == cmd2);
            }
        }
        assert(c.writes().skip(la) =~= b.writes().skip(la).push(cmd1).push(cmd2));
        assert forall|q: int|
            0 <= q < issued.len() implies c.writes().skip(la).contains(
            #[trigger] issued[q],
        ) by {
            let w = choose|j: int|
                0 <= j < b.writes().skip(la).len() && b.writes().skip(la)[j] == issued[q];
            assert(c.writes().skip(la)[w] == issued[q]);
        }
        let lb = b.writes().skip(la).len() as int;
        assert(c.writes().skip(la)[lb] == cmd1);
        assert(c.writes().skip(la).contains(cmd1));
        lemma_subseq_push_both(b.writes().skip(la), ordered.take(k), cmd1);
        lemma_subseq_push_both(b.writes().skip(la).push(cmd1), ordered.take(k + 1), cmd2);
    }
}

/// Two ledger extensions within the same vocabulary compose.
pub proof fn lemma_extended_trans<T: Transport>(
    a: Focus<T>,
    b: Focus<T>,
    c: Focus<T>,
    allowed: spec_fn(Seq<u8>) -> bool,
)
    requires
        extended_only_by(a, b, allowed),
        extended_only_by(b, c, allowed),
    ensures
        extended_only_by(a, c, allowed),
{
    assert(a.writes() =~= c.writes().subrange(0, a.writes().len() as int));
    assert forall|i: int|
        a.writes().len() <= i < c.writes().len() implies allowed(#[trigger] c.writes()[i]) by {
        if i < b.writes().len() {
            assert(b.writes()[i] == c.writes()[i]);
        }
    }
}

/// Two issued-command records across a prefix chain concatenate.
pub proof fn lemma_issued_concat<T: Transport>(
    a: Focus<T>,
    b: Focus<T>,
    c: Focus<T>,
    m1: Seq<Seq<u8>>,
    m2: Seq<Seq<u8>>,
)
    requires
        a.writes().is_prefix_of(b.writes()),
        b.writes().is_prefix_of(c.writes()),
        issued_all(a, b, m1),
        issued_all(b, c, m2),
    ensures
        issued_all(a, c, m1 + m2),
{
    let la = a.writes().len() as int;
    let lb = b.writes().len() as int;
    assert(b.writes() =~= c.writes().subrange(0, lb));
    assert(c.writes().skip(la) =~= b.writes().skip(la) + c.writes().skip(lb));
    assert forall|k: int|
        0 <= k < (m1 + m2).len() implies c.writes().skip(la).contains(
        #[trigger] (m1 + m2)[k],
    ) by {
        if k < m1.len() {
            let w = choose|q: int|
                0 <= q < b.writes().skip(la).len() && b.writes().skip(la)[q] == m1[k];
            assert(c.writes().skip(la)[w] == (m1 + m2)[k]);
        } else {
            let w = choose|q: int|
                0 <= q < c.writes().skip(lb).len() && c.writes().skip(lb)[q] == m2[k - m1.len()];
            assert(c.writes().skip(la)[w + (lb - la)] == (m1 + m2)[k]);
        }
    }
}

/// The suffixes a prefix chain contributes adjoin.
pub proof fn lemma_suffix_concat<T: Transport>(a: Focus<T>, b: Focus<T>, c: Focus<T>)
    requires
        a.writes().is_prefix_of(b.writes()),
        b.writes().is_prefix_of(c.writes()),
    ensures
        c.writes().skip(a.writes().len() as int) == b.writes().skip(a.writes().len() as int)
            + c.writes().skip(b.writes().len() as int),
{
    let la = a.writes().len() as int;
    let lb = b.writes().len() as int;
    assert(b.writes() =~= c.writes().subrange(0, lb));
    assert(c.writes().skip(la) =~= b.writes().skip(la) + c.writes().skip(lb));
}

/// The commands a snapshot read may put on the wire: one query per field.
pub open spec fn is_settings_read_cmd(c: Seq<u8>) -> bool {
    c == line_cmd("keymap.custom"@)
    || c == line_cmd("keymap.default"@)
    || c == line_cmd("keymap.onlyCustom"@)
    || c == line_cmd("settings.defaultLayer"@)
    || c == line_cmd("superkeys.map"@)
    || c == line_cmd("superkeys.waitfor"@)
    || c == line_cmd("superkeys.timeout"@)
    || c == line_cmd("superkeys.repeat"@)
    || c == line_cmd("superkeys.holdstart"@)
    || c == line_cmd("superkeys.overlap"@)
    || c == line_cmd("led.mode"@)
    || c == line_cmd("led.brightness"@)
    || c == line_cmd("led.brightnessUG"@)
    || c == line_cmd("led.brightness.wireless"@)
    || c == line_cmd("led.brightnessUG.wireless"@)
    || c == line_cmd("led.fade"@)
    || c == line_cmd("led.theme"@)
    || c == line_cmd("palette"@)
    || c == line_cmd("palette"@)
    || c == line_cmd("colormap.map"@)
    || c == line_cmd("idleleds.true_sleep"@)
    || c == line_cmd("idleleds.true_sleep_time"@)
    || c == line_cmd("idleleds.time_limit"@)
    || c == line_cmd("idleleds.wireless"@)
    || c == line_cmd("qukeys.holdTimeout"@)
    || c == line_cmd("qukeys.overlapThreshold"@)
    || c == line_cmd("macros.map"@)
    || c == line_cmd("mouse.speed"@)
    || c == line_cmd("mouse.speedDelay"@)
    || c == line_cmd("mouse.accelSpeed"@)
    || c == line_cmd("mouse.accelDelay"@)
    || c == line_cmd("mouse.wheelSpeed"@)
    || c == line_cmd("mouse.wheelDelay"@)
    || c == line_cmd("mouse.speedLimit"@)
    || c == line_cmd("wireless.battery.savingMode"@)
    || c == line_cmd("wireless.rf.power"@)
    || c == line_cmd("wireless.rf.channelHop"@)
}

/// The read commands of the mandatory fields, in transaction order: a
/// successful snapshot read has issued every one of them.
pub open spec fn settings_read_mandatory_cmds() -> Seq<Seq<u8>> {
    seq![
        line_cmd("keymap.custom"@),
        line_cmd("keymap.default"@),
        line_cmd("keymap.onlyCustom"@),
        line_cmd("settings.defaultLayer"@),
        line_cmd("superkeys.map"@),
        line_cmd("superkeys.waitfor"@),
        line_cmd("superkeys.timeout"@),
        line_cmd("superkeys.repeat"@),
        line_cmd("superkeys.holdstart"@),
        line_cmd("superkeys.overlap"@),
        line_cmd("led.mode"@),
        line_cmd("led.brightness"@),
        line_cmd("led.theme"@),
        line_cmd("colormap.map"@),
        line_cmd("idleleds.time_limit"@),
        line_cmd("qukeys.holdTimeout"@),
        line_cmd("qukeys.overlapThreshold"@),
        line_cmd("macros.map"@),
        line_cmd("mouse.speed"@),
        line_cmd("mouse.speedDelay"@),
        line_cmd("mouse.accelSpeed"@),
        line_cmd("mouse.accelDelay"@),
        line_cmd("mouse.wheelSpeed"@),
        line_cmd("mouse.wheelDelay"@),
        line_cmd("mouse.speedLimit"@),
    ]
}

/// The commands writing this snapshot may put on the wire: one write per
/// field that is present, plus the pre-read that guards the default-layer
/// write.
pub open spec fn is_settings_write_cmd(s: Settings, c: Seq<u8>) -> bool {
    c == line_cmd("keymap.custom "@ + encode_list(s.keymap_custom@.map_values(|x: u16| x.as_natural())))
    || c == line_cmd("keymap.default "@ + encode_list(s.keymap_default@.map_values(|x: u16| x.as_natural())))
    || c == line_cmd("keymap.onlyCustom "@ + dec_repr(if s.keymap_only_custom { 1nat } else { 0nat }))
    || c == line_cmd("settings.defaultLayer"@)
    || c == line_cmd("settings.defaultLayer "@ + dec_repr(s.settings_default_layer as nat))
    || c == line_cmd("superkeys.map "@ + encode_list(s.superkeys_map@.map_values(|x: u16| x.as_natural())))
    || c == line_cmd("superkeys.waitfor "@ + dec_repr(s.superkeys_wait_for as nat))
    || c == line_cmd("superkeys.timeout "@ + dec_repr(s.superkeys_timeout as nat))
    || c == line_cmd("superkeys.repeat "@ + dec_repr(s.superkeys_repeat as nat))
    || c == line_cmd("superkeys.holdstart "@ + dec_repr(s.superkeys_hold_start as nat))
    || c == line_cmd("superkeys.overlap "@ + dec_repr(s.superkeys_overlap as nat))
    || c == line_cmd("led.mode "@ + dec_repr(s.led_mode.spec_wire_code()))
    || c == line_cmd("led.brightness "@ + dec_repr(s.led_brightness_keys_wired as nat))
    || (s.led_brightness_underglow_wired is Some && c == line_cmd("led.brightnessUG "@ + dec_repr(s.led_brightness_underglow_wired.unwrap() as nat)))
    || (s.led_brightness_keys_wireless is Some && c == line_cmd("led.brightness.wireless "@ + dec_repr(s.led_brightness_keys_wireless.unwrap() as nat)))
    || (s.led_brightness_underglow_wireless is Some && c == line_cmd("led.brightnessUG.wireless "@ + dec_repr(s.led_brightness_underglow_wireless.unwrap() as nat)))
    || (s.led_fade is Some && c == line_cmd("led.fade "@ + dec_repr(s.led_fade.unwrap() as nat)))
    || c == line_cmd("led.theme "@ + encode_list(flat_rgb(s.led_theme@)))
    || (s.palette_rgb is Some && c == line_cmd("palette "@ + encode_list(flat_rgb(s.palette_rgb.unwrap()@))))
    || (s.palette_rgbw is Some && c == line_cmd("palette "@ + encode_list(flat_rgbw(s.palette_rgbw.unwrap()@))))
    || c == line_cmd("colormap.map "@ + encode_list(s.color_map@.map_values(|x: u8| x.as_natural())))
    || (s.led_idle_true_sleep is Some && c == line_cmd("idleleds.true_sleep "@ + dec_repr(if s.led_idle_true_sleep.unwrap() { 1nat } else { 0nat })))
    || (s.led_idle_true_sleep_time is Some && c == line_cmd("idleleds.true_sleep_time "@ + dec_repr(s.led_idle_true_sleep_time.unwrap() as nat)))
    || c == line_cmd("idleleds.time_limit "@ + dec_repr(s.led_idle_time_limit_wired as nat))
    || (s.led_idle_time_limit_wireless is Some && c == line_cmd("idleleds.wireless "@ + dec_repr(s.led_idle_time_limit_wireless.unwrap() as nat)))
    || c == line_cmd("qukeys.holdTimeout "@ + dec_repr(s.qukeys_hold_timeout as nat))
    || c == line_cmd("qukeys.overlapThreshold "@ + dec_repr(s.qukeys_overlap_threshold as nat))
    || c == line_cmd("macros.map "@ + encode_list(s.macros_map@.map_values(|x: u8| x.as_natural())))
    || c == line_cmd("mouse.speed "@ + dec_repr(s.mouse_speed as nat))
    || c == line_cmd("mouse.speedDelay "@ + dec_repr(s.mouse_delay as nat))
    || c == line_cmd("mouse.accelSpeed "@ + dec_repr(s.mouse_acceleration_speed as nat))
    || c == line_cmd("mouse.accelDelay "@ + dec_repr(s.mouse_acceleration_delay as nat))
    || c == line_cmd("mouse.wheelSpeed "@ + dec_repr(s.mouse_wheel_speed as nat))
    || c == line_cmd("mouse.wheelDelay "@ + dec_repr(s.mouse_wheel_delay as nat))
    || c == line_cmd("mouse.speedLimit "@ + dec_repr(s.mouse_speed_limit as nat))
    || (s.wireless_battery_saving_mode is Some && c == line_cmd("wireless.battery.savingMode "@ + dec_repr(if s.wireless_battery_saving_mode.unwrap() { 1nat } else { 0nat })))
    || (s.wireless_rf_power_level is Some && c == line_cmd("wireless.rf.power "@ + dec_repr(s.wireless_rf_power_level.unwrap().spec_wire_code())))
    || (s.wireless_rf_channel_hop is Some && c == line_cmd("wireless.rf.channelHop "@ + dec_repr(if s.wireless_rf_channel_hop.unwrap() { 1nat } else { 0nat })))
}

pub open spec fn read_order_a() -> Seq<Seq<u8>> {
    seq![
        line_cmd("keymap.custom"@),
        line_cmd("keymap.default"@),
        line_cmd("keymap.onlyCustom"@),
        line_cmd("settings.defaultLayer"@),
        line_cmd("superkeys.map"@),
        line_cmd("superkeys.waitfor"@),
        line_cmd("superkeys.timeout"@),
        line_cmd("superkeys.repeat"@),
        line_cmd("superkeys.holdstart"@),
        line_cmd("superkeys.overlap"@),
    ]
}

spec fn read_mandatory_a() -> Seq<Seq<u8>> {
    seq![
        line_cmd("keymap.custom"@),
        line_cmd("keymap.default"@),
        line_cmd("keymap.onlyCustom"@),
        line_cmd("settings.defaultLayer"@),
        line_cmd("superkeys.map"@),
        line_cmd("superkeys.waitfor"@),
        line_cmd("superkeys.timeout"@),
        line_cmd("superkeys.repeat"@),
        line_cmd("superkeys.holdstart"@),
        line_cmd("superkeys.overlap"@),
    ]
}

pub open spec fn read_order_b() -> Seq<Seq<u8>> {
    seq![
        line_cmd("led.mode"@),
        line_cmd("led.brightness"@),
        line_cmd("led.brightnessUG"@),
        line_cmd("led.brightness.wireless"@),
        line_cmd("led.brightnessUG.wireless"@),
        line_cmd("led.fade"@),
        line_cmd("led.theme"@),
        line_cmd("palette"@),
        line_cmd("palette"@),
    ]
}

spec fn read_mandatory_b() -> Seq<Seq<u8>> {
    seq![
        line_cmd("led.mode"@),
        line_cmd("led.brightness"@),
        line_cmd("led.theme"@),
    ]
}

pub open spec fn read_order_c() -> Seq<Seq<u8>> {
    seq![
        line_cmd("colormap.map"@),
        line_cmd("idleleds.true_sleep"@),
        line_cmd("idleleds.true_sleep_time"@),
        line_cmd("idleleds.time_limit"@),
        line_cmd("idleleds.wireless"@),
        line_cmd("qukeys.holdTimeout"@),
        line_cmd("qukeys.overlapThreshold"@),
        line_cmd("macros.map"@),
        line_cmd("mouse.speed"@),
    ]
}

spec fn read_mandatory_c() -> Seq<Seq<u8>> {
    seq![
        line_cmd("colormap.map"@),
        line_cmd("idleleds.time_limit"@),
        line_cmd("qukeys.holdTimeout"@),
        line_cmd("qukeys.overlapThreshold"@),
        line_cmd("macros.map"@),
        line_cmd("mouse.speed"@),
    ]
}

pub open spec fn read_order_d() -> Seq<Seq<u8>> {
    seq![
        line_cmd("mouse.speedDelay"@),
        line_cmd("mouse.accelSpeed"@),
        line_cmd("mouse.accelDelay"@),
        line_cmd("mouse.wheelSpeed"@),
        line_cmd("mouse.wheelDelay"@),
        line_cmd("mouse.speedLimit"@),
        line_cmd("wireless.battery.savingMode"@),
        line_cmd("wireless.rf.power"@),
        line_cmd("wireless.rf.channelHop"@),
    ]
}

spec fn read_mandatory_d() -> Seq<Seq<u8>> {
    seq![
        line_cmd("mouse.speedDelay"@),
        line_cmd("mouse.accelSpeed"@),
        line_cmd("mouse.accelDelay"@),
        line_cmd("mouse.wheelSpeed"@),
        line_cmd("mouse.wheelDelay"@),
        line_cmd("mouse.speedLimit"@),
    ]
}

/// The full ordered command list of a snapshot read: the ledger's growth
/// during the transaction is an in-order selection from it.
pub open spec fn settings_read_cmd_list() -> Seq<Seq<u8>> {
    read_order_a() + read_order_b() + read_order_c() + read_order_d()
}

pub open spec fn write_order_keys(s: Settings) -> Seq<Seq<u8>> {
    seq![
        line_cmd("keymap.custom "@ + encode_list(s.keymap_custom@.map_values(|x: u16| x.as_natural()))),
        line_cmd("keymap.default "@ + encode_list(s.keymap_default@.map_values(|x: u16| x.as_natural()))),
        line_cmd("keymap.onlyCustom "@ + dec_repr(if s.keymap_only_custom { 1nat } else { 0nat })),
        line_cmd("settings.defaultLayer"@),
        line_cmd("settings.defaultLayer "@ + dec_repr(s.settings_default_layer as nat)),
        line_cmd("superkeys.map "@ + encode_list(s.superkeys_map@.map_values(|x: u16| x.as_natural()))),
        line_cmd("superkeys.waitfor "@ + dec_repr(s.superkeys_wait_for as nat)),
        line_cmd("superkeys.timeout "@ + dec_repr(s.superkeys_timeout as nat)),
        line_cmd("superkeys.repeat "@ + dec_repr(s.superkeys_repeat as nat)),
        line_cmd("superkeys.holdstart "@ + dec_repr(s.superkeys_hold_start as nat)),
    ]
}

pub open spec fn write_issued_keys(s: Settings) -> Seq<Seq<u8>> {
    seq![line_cmd("keymap.custom "@ + encode_list(s.keymap_custom@.map_values(|x: u16| x.as_natural())))] + seq![line_cmd("keymap.default "@ + encode_list(s.keymap_default@.map_values(|x: u16| x.as_natural())))] + seq![line_cmd("keymap.onlyCustom "@ + dec_repr(if s.keymap_only_custom { 1nat } else { 0nat }))] + seq![line_cmd("settings.defaultLayer"@)] + seq![line_cmd("superkeys.map "@ + encode_list(s.superkeys_map@.map_values(|x: u16| x.as_natural())))] + seq![line_cmd("superkeys.waitfor "@ + dec_repr(s.superkeys_wait_for as nat))] + seq![line_cmd("superkeys.timeout "@ + dec_repr(s.superkeys_timeout as nat))] + seq![line_cmd("superkeys.repeat "@ + dec_repr(s.superkeys_repeat as nat))] + seq![line_cmd("superkeys.holdstart "@ + dec_repr(s.superkeys_hold_start as nat))]
}

pub open spec fn write_order_leds(s: Settings) -> Seq<Seq<u8>> {
    seq![
        line_cmd("superkeys.overlap "@ + dec_repr(s.superkeys_overlap as nat)),
        line_cmd("led.mode "@ + dec_repr(s.led_mode.spec_wire_code())),
        line_cmd("led.brightness "@ + dec_repr(s.led_brightness_keys_wired as nat)),
        line_cmd("led.brightnessUG "@ + dec_repr(s.led_brightness_underglow_wired.unwrap() as nat)),
        line_cmd("led.brightness.wireless "@ + dec_repr(s.led_brightness_keys_wireless.unwrap() as nat)),
        line_cmd("led.brightnessUG.wireless "@ + dec_repr(s.led_brightness_underglow_wireless.unwrap() as nat)),
        line_cmd("led.fade "@ + dec_repr(s.led_fade.unwrap() as nat)),
        line_cmd("led.theme "@ + encode_list(flat_rgb(s.led_theme@))),
        line_cmd("palette "@ + encode_list(flat_rgb(s.palette_rgb.unwrap()@))),
    ]
}

pub open spec fn write_issued_leds(s: Settings) -> Seq<Seq<u8>> {
    seq![line_cmd("superkeys.overlap "@ + dec_repr(s.superkeys_overlap as nat))] + seq![line_cmd("led.mode "@ + dec_repr(s.led_mode.spec_wire_code()))] + seq![line_cmd("led.brightness "@ + dec_repr(s.led_brightness_keys_wired as nat))] + (if s.led_brightness_underglow_wired is Some { seq![line_cmd("led.brightnessUG "@ + dec_repr(s.led_brightness_underglow_wired.unwrap() as nat))] } else { Seq::<Seq<u8>>::empty() }) + (if s.led_brightness_keys_wireless is Some { seq![line_cmd("led.brightness.wireless "@ + dec_repr(s.led_brightness_keys_wireless.unwrap() as nat))] } else { Seq::<Seq<u8>>::empty() }) + (if s.led_brightness_underglow_wireless is Some { seq![line_cmd("led.brightnessUG.wireless "@ + dec_repr(s.led_brightness_underglow_wireless.unwrap() as nat))] } else { Seq::<Seq<u8>>::empty() }) + (if s.led_fade is Some { seq![line_cmd("led.fade "@ + dec_repr(s.led_fade.unwrap() as nat))] } else { Seq::<Seq<u8>>::empty() }) + seq![line_cmd("led.theme "@ + encode_list(flat_rgb(s.led_theme@)))] + (if s.palette_rgb is Some { seq![line_cmd("palette "@ + encode_list(flat_rgb(s.palette_rgb.unwrap()@)))] } else { Seq::<Seq<u8>>::empty() })
}

pub open spec fn write_order_maps(s: Settings) -> Seq<Seq<u8>> {
    seq![
        line_cmd("palette "@ + encode_list(flat_rgbw(s.palette_rgbw.unwrap()@))),
        line_cmd("colormap.map "@ + encode_list(s.color_map@.map_values(|x: u8| x.as_natural()))),
        line_cmd("idleleds.true_sleep "@ + dec_repr(if s.led_idle_true_sleep.unwrap() { 1nat } else { 0nat })),
        line_cmd("idleleds.true_sleep_time "@ + dec_repr(s.led_idle_true_sleep_time.unwrap() as nat)),
        line_cmd("idleleds.time_limit "@ + dec_repr(s.led_idle_time_limit_wired as nat)),
        line_cmd("idleleds.wireless "@ + dec_repr(s.led_idle_time_limit_wireless.unwrap() as nat)),
        line_cmd("qukeys.holdTimeout "@ + dec_repr(s.qukeys_hold_timeout as nat)),
        line_cmd("qukeys.overlapThreshold "@ + dec_repr(s.qukeys_overlap_threshold as nat)),
        line_cmd("macros.map "@ + encode_list(s.macros_map@.map_values(|x: u8| x.as_natural()))),
    ]
}

pub open spec fn write_issued_maps(s: Settings) -> Seq<Seq<u8>> {
    (if s.palette_rgbw is Some { seq![line_cmd("palette "@ + encode_list(flat_rgbw(s.palette_rgbw.unwrap()@)))] } else { Seq::<Seq<u8>>::empty() }) + seq![line_cmd("colormap.map "@ + encode_list(s.color_map@.map_values(|x: u8| x.as_natural())))] + (if s.led_idle_true_sleep is Some { seq![line_cmd("idleleds.true_sleep "@ + dec_repr(if s.led_idle_true_sleep.unwrap() { 1nat } else { 0nat }))] } else { Seq::<Seq<u8>>::empty() }) + (if s.led_idle_true_sleep_time is Some { seq![line_cmd("idleleds.true_sleep_time "@ + dec_repr(s.led_idle_true_sleep_time.unwrap() as nat))] } else { Seq::<Seq<u8>>::empty() }) + seq![line_cmd("idleleds.time_limit "@ + dec_repr(s.led_idle_time_limit_wired as nat))] + (if s.led_idle_time_limit_wireless is Some { seq![line_cmd("idleleds.wireless "@ + dec_repr(s.led_idle_time_limit_wireless.unwrap() as nat))] } else { Seq::<Seq<u8>>::empty() }) + seq![line_cmd("qukeys.holdTimeout "@ + dec_repr(s.qukeys_hold_timeout as nat))] + seq![line_cmd("qukeys.overlapThreshold "@ + dec_repr(s.qukeys_overlap_threshold as nat))] + seq![line_cmd("macros.map "@ + encode_list(s.macros_map@.map_values(|x: u8| x.as_natural())))]
}

pub open spec fn write_order_input(s: Settings) -> Seq<Seq<u8>> {
    seq![
        line_cmd("mouse.speed "@ + dec_repr(s.mouse_speed as nat)),
        line_cmd("mouse.speedDelay "@ + dec_repr(s.mouse_delay as nat)),
        line_cmd("mouse.accelSpeed "@ + dec_repr(s.mouse_acceleration_speed as nat)),
        line_cmd("mouse.accelDelay "@ + dec_repr(s.mouse_acceleration_delay as nat)),
        line_cmd("mouse.wheelSpeed "@ + dec_repr(s.mouse_wheel_speed as nat)),
        line_cmd("mouse.wheelDelay "@ + dec_repr(s.mouse_wheel_delay as nat)),
        line_cmd("mouse.speedLimit "@ + dec_repr(s.mouse_speed_limit as nat)),
        line_cmd("wireless.battery.savingMode "@ + dec_repr(if s.wireless_battery_saving_mode.unwrap() { 1nat } else { 0nat })),
        line_cmd("wireless.rf.power "@ + dec_repr(s.wireless_rf_power_level.unwrap().spec_wire_code())),
        line_cmd("wireless.rf.channelHop "@ + dec_repr(if s.wireless_rf_channel_hop.unwrap() { 1nat } else { 0nat })),
    ]
}

pub open spec fn write_issued_input(s: Settings) -> Seq<Seq<u8>> {
    seq![line_cmd("mouse.speed "@ + dec_repr(s.mouse_speed as nat))] + seq![line_cmd("mouse.speedDelay "@ + dec_repr(s.mouse_delay as nat))] + seq![line_cmd("mouse.accelSpeed "@ + dec_repr(s.mouse_acceleration_speed as nat))] + seq![line_cmd("mouse.accelDelay "@ + dec_repr(s.mouse_acceleration_delay as nat))] + seq![line_cmd("mouse.wheelSpeed "@ + dec_repr(s.mouse_wheel_speed as nat))] + seq![line_cmd("mouse.wheelDelay "@ + dec_repr(s.mouse_wheel_delay as nat))] + seq![line_cmd("mouse.speedLimit "@ + dec_repr(s.mouse_speed_limit as nat))] + (if s.wireless_battery_saving_mode is Some { seq![line_cmd("wireless.battery.savingMode "@ + dec_repr(if s.wireless_battery_saving_mode.unwrap() { 1nat } else { 0nat }))] } else { Seq::<Seq<u8>>::empty() }) + (if s.wireless_rf_power_level is Some { seq![line_cmd("wireless.rf.power "@ + dec_repr(s.wireless_rf_power_level.unwrap().spec_wire_code()))] } else { Seq::<Seq<u8>>::empty() }) + (if s.wireless_rf_channel_hop is Some { seq![line_cmd("wireless.rf.channelHop "@ + dec_repr(if s.wireless_rf_channel_hop.unwrap() { 1nat } else { 0nat }))] } else { Seq::<Seq<u8>>::empty() })
}

/// The full ordered command list of a snapshot write: the ledger's growth
/// during the transaction is an in-order selection from it.
pub open spec fn settings_write_cmd_list(s: Settings) -> Seq<Seq<u8>> {
    write_order_keys(s) + write_order_leds(s) + write_order_maps(s) + write_order_input(s)
}

/// The commands a successful snapshot write has issued: one per mandatory
/// field, one per optional field that is present, and the default-layer
/// pre-read (the guarded write itself may be short-circuited away).
pub open spec fn settings_write_issued_cmds(s: Settings) -> Seq<Seq<u8>> {
    write_issued_keys(s) + write_issued_leds(s) + write_issued_maps(s) + write_issued_input(s)
}

/// The snapshot values a successful write has necessarily validated: every
/// client-enforced limit held, else the transaction would have failed.
pub open spec fn settings_within_limits(s: Settings) -> bool {
    s.settings_default_layer <= MAX_LAYERS && s.superkeys_overlap <= 80 && (
    s.led_idle_true_sleep_time matches Some(v) ==> v <= 65000) && s.led_idle_time_limit_wired
        <= 65000 && (s.led_idle_time_limit_wireless matches Some(v) ==> v <= 65000)
        && s.mouse_speed <= 127
}

proof fn lemma_read_list_splits()
    ensures
        read_order_a() + (read_order_b() + read_order_c() + read_order_d())
            == settings_read_cmd_list(),
        (read_order_a() + read_order_b()) + (read_order_c() + read_order_d())
            == settings_read_cmd_list(),
        (read_order_a() + read_order_b() + read_order_c()) + read_order_d()
            == settings_read_cmd_list(),
{
    assert(read_order_a() + (read_order_b() + read_order_c() + read_order_d())
        =~= settings_read_cmd_list());
    assert((read_order_a() + read_order_b()) + (read_order_c() + read_order_d())
        =~= settings_read_cmd_list());
    assert((read_order_a() + read_order_b() + read_order_c()) + read_order_d()
        =~= settings_read_cmd_list());
}

proof fn lemma_read_mandatory_split()
    ensures
        read_mandatory_a() + read_mandatory_b() + read_mandatory_c() + read_mandatory_d()
            == settings_read_mandatory_cmds(),
{
    assert(read_mandatory_a() + read_mandatory_b() + read_mandatory_c() + read_mandatory_d()
        =~= settings_read_mandatory_cmds());
}

proof fn lemma_write_list_splits(s: Settings)
    ensures
        write_order_keys(s) + (write_order_leds(s) + write_order_maps(s) + write_order_input(s))
            == settings_write_cmd_list(s),
        (write_order_keys(s) + write_order_leds(s)) + (write_order_maps(s) + write_order_input(s))
            == settings_write_cmd_list(s),
        (write_order_keys(s) + write_order_leds(s) + write_order_maps(s)) + write_order_input(s)
            == settings_write_cmd_list(s),
{
    assert(write_order_keys(s) + (write_order_leds(s) + write_order_maps(s)
        + write_order_input(s)) =~= settings_write_cmd_list(s));
    assert((write_order_keys(s) + write_order_leds(s)) + (write_order_maps(s)
        + write_order_input(s)) =~= settings_write_cmd_list(s));
    assert((write_order_keys(s) + write_order_leds(s) + write_order_maps(s))
        + write_order_input(s) =~= settings_write_cmd_list(s));
}

impl<T: Transport> Focus<T> {
    #[verifier::rlimit(100)]
    fn settings_read_a(&mut self) -> (r: Result<(Vec<u16>, Vec<u16>, bool, u8, Vec<u16>, u16, u16, u16, u16, u8), FocusError>)
        ensures
            extended_only_by(*old(self), *final(self), |c: Seq<u8>| is_settings_read_cmd(c)),
            is_subsequence_of(
                final(self).writes().skip(old(self).writes().len() as int),
                read_order_a(),
            ),
            r is Ok ==> issued_all(*old(self), *final(self), read_mandatory_a()),
    {
        let ghost allowed = |c: Seq<u8>| is_settings_read_cmd(c);
        let ghost mut issued: Seq<Seq<u8>> = Seq::empty();
        proof {
            assert(old(self).writes() =~= self.writes().subrange(
                0,
                old(self).writes().len() as int,
            ));
            assert(extended_only_by(*old(self), *self, allowed));
            assert(self.writes().skip(old(self).writes().len() as int)
                =~= Seq::<Seq<u8>>::empty());
            assert(read_order_a().take(0) =~= Seq::<Seq<u8>>::empty());
        }
        let ghost prev0 = *self;
        let r_keymap_custom = self.keymap_custom_get();
        proof {
            assert(allowed(line_cmd("keymap.custom"@)));
            assert(read_order_a()[0] == line_cmd("keymap.custom"@));
            lemma_step(*old(self), prev0, *self, line_cmd("keymap.custom"@), allowed, issued, read_order_a(), 0);
            if r_keymap_custom is Ok {
                issued = issued.push(line_cmd("keymap.custom"@));
            }
        }
        let keymap_custom = match r_keymap_custom {
            Ok(v) => v,
            Err(e) => {
                proof {
                    lemma_subseq_of_take(
                        self.writes().skip(old(self).writes().len() as int),
                        read_order_a(),
                        1,
                    );
                }
                return Err(e);
            },
        };
        let ghost prev1 = *self;
        let r_keymap_default = self.keymap_default_get();
        proof {
            assert(allowed(line_cmd("keymap.default"@)));
            assert(read_order_a()[1] == line_cmd("keymap.default"@));
            lemma_step(*old(self), prev1, *self, line_cmd("keymap.default"@), allowed, issued, read_order_a(), 1);
            if r_keymap_default is Ok {
                issued = issued.push(line_cmd("keymap.default"@));
            }
        }
        let keymap_default = match r_keymap_default {
            Ok(v) => v,
            Err(e) => {
                proof {
                    lemma_subseq_of_take(
                        self.writes().skip(old(self).writes().len() as int),
                        read_order_a(),
                        2,
                    );
                }
                return Err(e);
            },
        };
        let ghost prev2 = *self;
        let r_keymap_only_custom = self.keymap_only_custom_get();
        proof {
            assert(allowed(line_cmd("keymap.onlyCustom"@)));
            assert(read_order_a()[2] == line_cmd("keymap.onlyCustom"@));
            lemma_step(*old(self), prev2, *self, line_cmd("keymap.onlyCustom"@), allowed, issued, read_order_a(), 2);
            if r_keymap_only_custom is Ok {
                issued = issued.push(line_cmd("keymap.onlyCustom"@));
            }
        }
        let keymap_only_custom = match r_keymap_only_custom {
            Ok(v) => v,
            Err(e) => {
                proof {
                    lemma_subseq_of_take(
                        self.writes().skip(old(self).writes().len() as int),
                        read_order_a(),
                        3,
                    );
                }
                return Err(e);
            },
        };
        let ghost prev3 = *self;
        let r_settings_default_layer = self.settings_default_layer_get();
        proof {
            assert(allowed(line_cmd("settings.defaultLayer"@)));
            assert(read_order_a()[3] == line_cmd("settings.defaultLayer"@));
            lemma_step(*old(self), prev3, *self, line_cmd("settings.defaultLayer"@), allowed, issued, read_order_a(), 3);
            if r_settings_default_layer is Ok {
                issued = issued.push(line_cmd("settings.defaultLayer"@));
            }
        }
        let settings_default_layer = match r_settings_default_layer {
            Ok(v) => v,
            Err(e) => {
                proof {
                    lemma_subseq_of_take(
                        self.writes().skip(old(self).writes().len() as int),
                        read_order_a(),
                        4,
                    );
                }
                return Err(e);
            },
        };
        let ghost prev4 = *self;
        let r_superkeys_map = self.superkeys_map_get();
        proof {
            assert(allowed(line_cmd("superkeys.map"@)));
            assert(read_order_a()[4] == line_cmd("superkeys.map"@));
            lemma_step(*old(self), prev4, *self, line_cmd("superkeys.map"@), allowed, issued, read_order_a(), 4);
            if r_superkeys_map is Ok {
                issued = issued.push(line_cmd("superkeys.map"@));
            }
        }
        let superkeys_map = match r_superkeys_map {
            Ok(v) => v,
            Err(e) => {
                proof {
                    lemma_subseq_of_take(
                        self.writes().skip(old(self).writes().len() as int),
                        read_order_a(),
                        5,
                    );
                }
                return Err(e);
            },
        };
        let ghost prev5 = *self;
        let r_superkeys_wait_for = self.superkeys_wait_for_get();
        proof {
            assert(allowed(line_cmd("superkeys.waitfor"@)));
            assert(read_order_a()[5] == line_cmd("superkeys.waitfor"@));
            lemma_step(*old(self), prev5, *self, line_cmd("superkeys.waitfor"@), allowed, issued, read_order_a(), 5);
            if r_superkeys_wait_for is Ok {
                issued = issued.push(line_cmd("superkeys.waitfor"@));
            }
        }
        let superkeys_wait_for = match r_superkeys_wait_for {
            Ok(v) => v,
            Err(e) => {
                proof {
                    lemma_subseq_of_take(
                        self.writes().skip(old(self).writes().len() as int),
                        read_order_a(),
                        6,
                    );
                }
                return Err(e);
            },
        };
        let ghost prev6 = *self;
        let r_superkeys_timeout = self.superkeys_timeout_get();
        proof {
            assert(allowed(line_cmd("superkeys.timeout"@)));
            assert(read_order_a()[6] == line_cmd("superkeys.timeout"@));
            lemma_step(*old(self), prev6, *self, line_cmd("superkeys.timeout"@), allowed, issued, read_order_a(), 6);
            if r_superkeys_timeout is Ok {
                issued = issued.push(line_cmd("superkeys.timeout"@));
            }
        }
        let superkeys_timeout = match r_superkeys_timeout {
            Ok(v) => v,
            Err(e) => {
                proof {
                    lemma_subseq_of_take(
                        self.writes().skip(old(self).writes().len() as int),
                        read_order_a(),
                        7,
                    );
                }
                return Err(e);
            },
        };
        let ghost prev7 = *self;
        let r_superkeys_repeat = self.superkeys_repeat_get();
        proof {
            assert(allowed(line_cmd("superkeys.repeat"@)));
            assert(read_order_a()[7] == line_cmd("superkeys.repeat"@));
            lemma_step(*old(self), prev7, *self, line_cmd("superkeys.repeat"@), allowed, issued, read_order_a(), 7);
            if r_superkeys_repeat is Ok {
                issued = issued.push(line_cmd("superkeys.repeat"@));
            }
        }
        let superkeys_repeat = match r_superkeys_repeat {
            Ok(v) => v,
            Err(e) => {
                proof {
                    lemma_subseq_of_take(
                        self.writes().skip(old(self).writes().len() as int),
                        read_order_a(),
                        8,
                    );
                }
                return Err(e);
            },
        };
        let ghost prev8 = *self;
        let r_superkeys_hold_start = self.superkeys_hold_start_get();
        proof {
            assert(allowed(line_cmd("superkeys.holdstart"@)));
            assert(read_order_a()[8] == line_cmd("superkeys.holdstart"@));
            lemma_step(*old(self), prev8, *self, line_cmd("superkeys.holdstart"@), allowed, issued, read_order_a(), 8);
            if r_superkeys_hold_start is Ok {
                issued = issued.push(line_cmd("superkeys.holdstart"@));
            }
        }
        let superkeys_hold_start = match r_superkeys_hold_start {
            Ok(v) => v,
            Err(e) => {
                proof {
                    lemma_subseq_of_take(
                        self.writes().skip(old(self).writes().len() as int),
                        read_order_a(),
                        9,
                    );
                }
                return Err(e);
            },
        };
        let ghost prev9 = *self;
        let r_superkeys_overlap = self.superkeys_overlap_get();
        proof {
            assert(allowed(line_cmd("superkeys.overlap"@)));
            assert(read_order_a()[9] == line_cmd("superkeys.overlap"@));
            lemma_step(*old(self), prev9, *self, line_cmd("superkeys.overlap"@), allowed, issued, read_order_a(), 9);
            if r_superkeys_overlap is Ok {
                issued = issued.push(line_cmd("superkeys.overlap"@));
            }
        }
        let superkeys_overlap = match r_superkeys_overlap {
            Ok(v) => v,
            Err(e) => {
                proof {
                    lemma_subseq_of_take(
                        self.writes().skip(old(self).writes().len() as int),
                        read_order_a(),
                        10,
                    );
                }
                return Err(e);
            },
        };
        proof {
            assert(issued =~= read_mandatory_a());
            assert(read_order_a().take(10) =~= read_order_a());
        }
        Ok((keymap_custom, keymap_default, keymap_only_custom, settings_default_layer, superkeys_map, superkeys_wait_for, superkeys_timeout, superkeys_repeat, superkeys_hold_start, superkeys_overlap))
    }

    #[verifier::rlimit(100)]
    fn settings_read_b(&mut self) -> (r: Result<(LedMode, u8, Option<u8>, Option<u8>, Option<u8>, Option<u16>, Vec<RGB>, Option<Vec<RGB>>, Option<Vec<RGBW>>), FocusError>)
        ensures
            extended_only_by(*old(self), *final(self), |c: Seq<u8>| is_settings_read_cmd(c)),
            is_subsequence_of(
                final(self).writes().skip(old(self).writes().len() as int),
                read_order_b(),
            ),
            r is Ok ==> issued_all(*old(self), *final(self), read_mandatory_b()),
    {
        let ghost allowed = |c: Seq<u8>| is_settings_read_cmd(c);
        let ghost mut issued: Seq<Seq<u8>> = Seq::empty();
        proof {
            assert(old(self).writes() =~= self.writes().subrange(
                0,
                old(self).writes().len() as int,
            ));
            assert(extended_only_by(*old(self), *self, allowed));
            assert(self.writes().skip(old(self).writes().len() as int)
                =~= Seq::<Seq<u8>>::empty());
            assert(read_order_b().take(0) =~= Seq::<Seq<u8>>::empty());
        }
        let ghost prev0 = *self;
        let r_led_mode = self.led_mode_get();
        proof {
            assert(allowed(line_cmd("led.mode"@)));
            assert(read_order_b()[0] == line_cmd("led.mode"@));
            lemma_step(*old(self), prev0, *self, line_cmd("led.mode"@), allowed, issued, read_order_b(), 0);
            if r_led_mode is Ok {
                issued = issued.push(line_cmd("led.mode"@));
            }
        }
        let led_mode = match r_led_mode {
            Ok(v) => v,
            Err(e) => {
                proof {
                    lemma_subseq_of_take(
                        self.writes().skip(old(self).writes().len() as int),
                        read_order_b(),
                        1,
                    );
                }
                return Err(e);
            },
        };
        let ghost prev1 = *self;
        let r_led_brightness_keys_wired = self.led_brightness_top_get();
        proof {
            assert(allowed(line_cmd("led.brightness"@)));
            assert(read_order_b()[1] == line_cmd("led.brightness"@));
            lemma_step(*old(self), prev1, *self, line_cmd("led.brightness"@), allowed, issued, read_order_b(), 1);
            if r_led_brightness_keys_wired is Ok {
                issued = issued.push(line_cmd("led.brightness"@));
            }
        }
        let led_brightness_keys_wired = match r_led_brightness_keys_wired {
            Ok(v) => v,
            Err(e) => {
                proof {
                    lemma_subseq_of_take(
                        self.writes().skip(old(self).writes().len() as int),
                        read_order_b(),
                        2,
                    );
                }
                return Err(e);
            },
        };
        let ghost prev2 = *self;
        let r_led_brightness_underglow_wired = self.led_brightness_underglow_wired_get();
        proof {
            assert(allowed(line_cmd("led.brightnessUG"@)));
            assert(read_order_b()[2] == line_cmd("led.brightnessUG"@));
            lemma_step(*old(self), prev2, *self, line_cmd("led.brightnessUG"@), allowed, issued, read_order_b(), 2);
        }
        let led_brightness_underglow_wired = match r_led_brightness_underglow_wired {
            Ok(v) => Some(v),
            Err(_) => None,
        };
        let ghost prev3 = *self;
        let r_led_brightness_keys_wireless = self.led_brightness_keys_wireless_get();
        proof {
            assert(allowed(line_cmd("led.brightness.wireless"@)));
            assert(read_order_b()[3] == line_cmd("led.brightness.wireless"@));
            lemma_step(*old(self), prev3, *self, line_cmd("led.brightness.wireless"@), allowed, issued, read_order_b(), 3);
        }
        let led_brightness_keys_wireless = match r_led_brightness_keys_wireless {
            Ok(v) => Some(v),
            Err(_) => None,
        };
        let ghost prev4 = *self;
        let r_led_brightness_underglow_wireless = self.led_brightness_underglow_wireless_get();
        proof {
            assert(allowed(line_cmd("led.brightnessUG.wireless"@)));
            assert(read_order_b()[4] == line_cmd("led.brightnessUG.wireless"@));
            lemma_step(*old(self), prev4, *self, line_cmd("led.brightnessUG.wireless"@), allowed, issued, read_order_b(), 4);
        }
        let led_brightness_underglow_wireless = match r_led_brightness_underglow_wireless {
            Ok(v) => Some(v),
            Err(_) => None,
        };
        let ghost prev5 = *self;
        let r_led_fade = self.led_fade_get();
        proof {
            assert(allowed(line_cmd("led.fade"@)));
            assert(read_order_b()[5] == line_cmd("led.fade"@));
            lemma_step(*old(self), prev5, *self, line_cmd("led.fade"@), allowed, issued, read_order_b(), 5);
        }
        let led_fade = match r_led_fade {
            Ok(v) => Some(v),
            Err(_) => None,
        };
        let ghost prev6 = *self;
        let r_led_theme = self.led_theme_get();
        proof {
            assert(allowed(line_cmd("led.theme"@)));
            assert(read_order_b()[6] == line_cmd("led.theme"@));
            lemma_step(*old(self), prev6, *self, line_cmd("led.theme"@), allowed, issued, read_order_b(), 6);
            if r_led_theme is Ok {
                issued = issued.push(line_cmd("led.theme"@));
            }
        }
        let led_theme = match r_led_theme {
            Ok(v) => v,
            Err(e) => {
                proof {
                    lemma_subseq_of_take(
                        self.writes().skip(old(self).writes().len() as int),
                        read_order_b(),
                        7,
                    );
                }
                return Err(e);
            },
        };
        let ghost prev7 = *self;
        let r_palette_rgb = self.palette_rgb_get();
        proof {
            assert(allowed(line_cmd("palette"@)));
            assert(read_order_b()[7] == line_cmd("palette"@));
            lemma_step(*old(self), prev7, *self, line_cmd("palette"@), allowed, issued, read_order_b(), 7);
        }
        let palette_rgb = match r_palette_rgb {
            Ok(v) => Some(v),
            Err(_) => None,
        };
        let ghost prev8 = *self;
        let r_palette_rgbw = self.palette_rgbw_get();
        proof {
            assert(allowed(line_cmd("palette"@)));
            assert(read_order_b()[8] == line_cmd("palette"@));
            lemma_step(*old(self), prev8, *self, line_cmd("palette"@), allowed, issued, read_order_b(), 8);
        }
        let palette_rgbw = match r_palette_rgbw {
            Ok(v) => Some(v),
            Err(_) => None,
        };
        proof {
            assert(issued =~= read_mandatory_b());
            assert(read_order_b().take(9) =~= read_order_b());
        }
        Ok((led_mode, led_brightness_keys_wired, led_brightness_underglow_wired, led_brightness_keys_wireless, led_brightness_underglow_wireless, led_fade, led_theme, palette_rgb, palette_rgbw))
    }

    #[verifier::rlimit(100)]
    fn settings_read_c(&mut self) -> (r: Result<(Vec<u8>, Option<bool>, Option<u16>, u16, Option<u16>, u16, u16, Vec<u8>, u8), FocusError>)
        ensures
            extended_only_by(*old(self), *final(self), |c: Seq<u8>| is_settings_read_cmd(c)),
            is_subsequence_of(
                final(self).writes().skip(old(self).writes().len() as int),
                read_order_c(),
            ),
            r is Ok ==> issued_all(*old(self), *final(self), read_mandatory_c()),
    {
        let ghost allowed = |c: Seq<u8>| is_settings_read_cmd(c);
        let ghost mut issued: Seq<Seq<u8>> = Seq::empty();
        proof {
            assert(old(self).writes() =~= self.writes().subrange(
                0,
                old(self).writes().len() as int,
            ));
            assert(extended_only_by(*old(self), *self, allowed));
            assert(self.writes().skip(old(self).writes().len() as int)
                =~= Seq::<Seq<u8>>::empty());
            assert(read_order_c().take(0) =~= Seq::<Seq<u8>>::empty());
        }
        let ghost prev0 = *self;
        let r_color_map = self.color_map_get();
        proof {
            assert(allowed(line_cmd("colormap.map"@)));
            assert(read_order_c()[0] == line_cmd("colormap.map"@));
            lemma_step(*old(self), prev0, *self, line_cmd("colormap.map"@), allowed, issued, read_order_c(), 0);
            if r_color_map is Ok {
                issued = issued.push(line_cmd("colormap.map"@));
            }
        }
        let color_map = match r_color_map {
            Ok(v) => v,
            Err(e) => {
                proof {
                    lemma_subseq_of_take(
                        self.writes().skip(old(self).writes().len() as int),
                        read_order_c(),
                        1,
                    );
                }
                return Err(e);
            },
        };
        let ghost prev1 = *self;
        let r_led_idle_true_sleep = self.led_idle_true_sleep_get();
        proof {
            assert(allowed(line_cmd("idleleds.true_sleep"@)));
            assert(read_order_c()[1] == line_cmd("idleleds.true_sleep"@));
            lemma_step(*old(self), prev1, *self, line_cmd("idleleds.true_sleep"@), allowed, issued, read_order_c(), 1);
        }
        let led_idle_true_sleep = match r_led_idle_true_sleep {
            Ok(v) => Some(v),
            Err(_) => None,
        };
        let ghost prev2 = *self;
        let r_led_idle_true_sleep_time = self.led_idle_true_sleep_time_get();
        proof {
            assert(allowed(line_cmd("idleleds.true_sleep_time"@)));
            assert(read_order_c()[2] == line_cmd("idleleds.true_sleep_time"@));
            lemma_step(*old(self), prev2, *self, line_cmd("idleleds.true_sleep_time"@), allowed, issued, read_order_c(), 2);
        }
        let led_idle_true_sleep_time = match r_led_idle_true_sleep_time {
            Ok(v) => Some(v),
            Err(_) => None,
        };
        let ghost prev3 = *self;
        let r_led_idle_time_limit_wired = self.led_idle_time_limit_wired_get();
        proof {
            assert(allowed(line_cmd("idleleds.time_limit"@)));
            assert(read_order_c()[3] == line_cmd("idleleds.time_limit"@));
            lemma_step(*old(self), prev3, *self, line_cmd("idleleds.time_limit"@), allowed, issued, read_order_c(), 3);
            if r_led_idle_time_limit_wired is Ok {
                issued = issued.push(line_cmd("idleleds.time_limit"@));
            }
        }
        let led_idle_time_limit_wired = match r_led_idle_time_limit_wired {
            Ok(v) => v,
            Err(e) => {
                proof {
                    lemma_subseq_of_take(
                        self.writes().skip(old(self).writes().len() as int),
                        read_order_c(),
                        4,
                    );
                }
                return Err(e);
            },
        };
        let ghost prev4 = *self;
        let r_led_idle_time_limit_wireless = self.led_idle_time_limit_wireless_get();
        proof {
            assert(allowed(line_cmd("idleleds.wireless"@)));
            assert(read_order_c()[4] == line_cmd("idleleds.wireless"@));
            lemma_step(*old(self), prev4, *self, line_cmd("idleleds.wireless"@), allowed, issued, read_order_c(), 4);
        }
        let led_idle_time_limit_wireless = match r_led_idle_time_limit_wireless {
            Ok(v) => Some(v),
            Err(_) => None,
        };
        let ghost prev5 = *self;
        let r_qukeys_hold_timeout = self.qukeys_hold_timeout_get();
        proof {
            assert(allowed(line_cmd("qukeys.holdTimeout"@)));
            assert(read_order_c()[5] == line_cmd("qukeys.holdTimeout"@));
            lemma_step(*old(self), prev5, *self, line_cmd("qukeys.holdTimeout"@), allowed, issued, read_order_c(), 5);
            if r_qukeys_hold_timeout is Ok {
                issued = issued.push(line_cmd("qukeys.holdTimeout"@));
            }
        }
        let qukeys_hold_timeout = match r_qukeys_hold_timeout {
            Ok(v) => v,
            Err(e) => {
                proof {
                    lemma_subseq_of_take(
                        self.writes().skip(old(self).writes().len() as int),
                        read_order_c(),
                        6,
                    );
                }
                return Err(e);
            },
        };
        let ghost prev6 = *self;
        let r_qukeys_overlap_threshold = self.qukeys_overlap_threshold_get();
        proof {
            assert(allowed(line_cmd("qukeys.overlapThreshold"@)));
            assert(read_order_c()[6] == line_cmd("qukeys.overlapThreshold"@));
            lemma_step(*old(self), prev6, *self, line_cmd("qukeys.overlapThreshold"@), allowed, issued, read_order_c(), 6);
            if r_qukeys_overlap_threshold is Ok {
                issued = issued.push(line_cmd("qukeys.overlapThreshold"@));
            }
        }
        let qukeys_overlap_threshold = match r_qukeys_overlap_threshold {
            Ok(v) => v,
            Err(e) => {
                proof {
                    lemma_subseq_of_take(
                        self.writes().skip(old(self).writes().len() as int),
                        read_order_c(),
                        7,
                    );
                }
                return Err(e);
            },
        };
        let ghost prev7 = *self;
        let r_macros_map = self.macros_map_get();
        proof {
            assert(allowed(line_cmd("macros.map"@)));
            assert(read_order_c()[7] == line_cmd("macros.map"@));
            lemma_step(*old(self), prev7, *self, line_cmd("macros.map"@), allowed, issued, read_order_c(), 7);
            if r_macros_map is Ok {
                issued = issued.push(line_cmd("macros.map"@));
            }
        }
        let macros_map = match r_macros_map {
            Ok(v) => v,
            Err(e) => {
                proof {
                    lemma_subseq_of_take(
                        self.writes().skip(old(self).writes().len() as int),
                        read_order_c(),
                        8,
                    );
                }
                return Err(e);
            },
        };
        let ghost prev8 = *self;
        let r_mouse_speed = self.mouse_speed_get();
        proof {
            assert(allowed(line_cmd("mouse.speed"@)));
            assert(read_order_c()[8] == line_cmd("mouse.speed"@));
            lemma_step(*old(self), prev8, *self, line_cmd("mouse.speed"@), allowed, issued, read_order_c(), 8);
            if r_mouse_speed is Ok {
                issued = issued.push(line_cmd("mouse.speed"@));
            }
        }
        let mouse_speed = match r_mouse_speed {
            Ok(v) => v,
            Err(e) => {
                proof {
                    lemma_subseq_of_take(
                        self.writes().skip(old(self).writes().len() as int),
                        read_order_c(),
                        9,
                    );
                }
                return Err(e);
            },
        };
        proof {
            assert(issued =~= read_mandatory_c());
            assert(read_order_c().take(9) =~= read_order_c());
        }
        Ok((color_map, led_idle_true_sleep, led_idle_true_sleep_time, led_idle_time_limit_wired, led_idle_time_limit_wireless, qukeys_hold_timeout, qukeys_overlap_threshold, macros_map, mouse_speed))
    }

    #[verifier::rlimit(100)]
    fn settings_read_d(&mut self) -> (r: Result<(u16, u8, u16, u8, u16, u8, Option<bool>, Option<WirelessPowerMode>, Option<bool>), FocusError>)
        ensures
            extended_only_by(*old(self), *final(self), |c: Seq<u8>| is_settings_read_cmd(c)),
            is_subsequence_of(
                final(self).writes().skip(old(self).writes().len() as int),
                read_order_d(),
            ),
            r is Ok ==> issued_all(*old(self), *final(self), read_mandatory_d()),
    {
        let ghost allowed = |c: Seq<u8>| is_settings_read_cmd(c);
        let ghost mut issued: Seq<Seq<u8>> = Seq::empty();
        proof {
            assert(old(self).writes() =~= self.writes().subrange(
                0,
                old(self).writes().len() as int,
            ));
            assert(extended_only_by(*old(self), *self, allowed));
            assert(self.writes().skip(old(self).writes().len() as int)
                =~= Seq::<Seq<u8>>::empty());
            assert(read_order_d().take(0) =~= Seq::<Seq<u8>>::empty());
        }
        let ghost prev0 = *self;
        let r_mouse_delay = self.mouse_delay_get();
        proof {
            assert(allowed(line_cmd("mouse.speedDelay"@)));
            assert(read_order_d()[0] == line_cmd("mouse.speedDelay"@));
            lemma_step(*old(self), prev0, *self, line_cmd("mouse.speedDelay"@), allowed, issued, read_order_d(), 0);
            if r_mouse_delay is Ok {
                issued = issued.push(line_cmd("mouse.speedDelay"@));
            }
        }
        let mouse_delay = match r_mouse_delay {
            Ok(v) => v,
            Err(e) => {
                proof {
                    lemma_subseq_of_take(
                        self.writes().skip(old(self).writes().len() as int),
                        read_order_d(),
                        1,
                    );
                }
                return Err(e);
            },
        };
        let ghost prev1 = *self;
        let r_mouse_acceleration_speed = self.mouse_acceleration_speed_get();
        proof {
            assert(allowed(line_cmd("mouse.accelSpeed"@)));
            assert(read_order_d()[1] == line_cmd("mouse.accelSpeed"@));
            lemma_step(*old(self), prev1, *self, line_cmd("mouse.accelSpeed"@), allowed, issued, read_order_d(), 1);
            if r_mouse_acceleration_speed is Ok {
                issued = issued.push(line_cmd("mouse.accelSpeed"@));
            }
        }
        let mouse_acceleration_speed = match r_mouse_acceleration_speed {
            Ok(v) => v,
            Err(e) => {
                proof {
                    lemma_subseq_of_take(
                        self.writes().skip(old(self).writes().len() as int),
                        read_order_d(),
                        2,
                    );
                }
                return Err(e);
            },
        };
        let ghost prev2 = *self;
        let r_mouse_acceleration_delay = self.mouse_acceleration_delay_get();
        proof {
            assert(allowed(line_cmd("mouse.accelDelay"@)));
            assert(read_order_d()[2] == line_cmd("mouse.accelDelay"@));
            lemma_step(*old(self), prev2, *self, line_cmd("mouse.accelDelay"@), allowed, issued, read_order_d(), 2);
            if r_mouse_acceleration_delay is Ok {
                issued = issued.push(line_cmd("mouse.accelDelay"@));
            }
        }
        let mouse_acceleration_delay = match r_mouse_acceleration_delay {
            Ok(v) => v,
            Err(e) => {
                proof {
                    lemma_subseq_of_take(
                        self.writes().skip(old(self).writes().len() as int),
                        read_order_d(),
                        3,
                    );
                }
                return Err(e);
            },
        };
        let ghost prev3 = *self;
        let r_mouse_wheel_speed = self.mouse_wheel_speed_get();
        proof {
            assert(allowed(line_cmd("mouse.wheelSpeed"@)));
            assert(read_order_d()[3] == line_cmd("mouse.wheelSpeed"@));
            lemma_step(*old(self), prev3, *self, line_cmd("mouse.wheelSpeed"@), allowed, issued, read_order_d(), 3);
            if r_mouse_wheel_speed is Ok {
                issued = issued.push(line_cmd("mouse.wheelSpeed"@));
            }
        }
        let mouse_wheel_speed = match r_mouse_wheel_speed {
            Ok(v) => v,
            Err(e) => {
                proof {
                    lemma_subseq_of_take(
                        self.writes().skip(old(self).writes().len() as int),
                        read_order_d(),
                        4,
                    );
                }
                return Err(e);
            },
        };
        let ghost prev4 = *self;
        let r_mouse_wheel_delay = self.mouse_wheel_delay_get();
        proof {
            assert(allowed(line_cmd("mouse.wheelDelay"@)));
            assert(read_order_d()[4] == line_cmd("mouse.wheelDelay"@));
            lemma_step(*old(self), prev4, *self, line_cmd("mouse.wheelDelay"@), allowed, issued, read_order_d(), 4);
            if r_mouse_wheel_delay is Ok {
                issued = issued.push(line_cmd("mouse.wheelDelay"@));
            }
        }
        let mouse_wheel_delay = match r_mouse_wheel_delay {
            Ok(v) => v,
            Err(e) => {
                proof {
                    lemma_subseq_of_take(
                        self.writes().skip(old(self).writes().len() as int),
                        read_order_d(),
                        5,
                    );
                }
                return Err(e);
            },
        };
        let ghost prev5 = *self;
        let r_mouse_speed_limit = self.mouse_speed_limit_get();
        proof {
            assert(allowed(line_cmd("mouse.speedLimit"@)));
            assert(read_order_d()[5] == line_cmd("mouse.speedLimit"@));
            lemma_step(*old(self), prev5, *self, line_cmd("mouse.speedLimit"@), allowed, issued, read_order_d(), 5);
            if r_mouse_speed_limit is Ok {
                issued = issued.push(line_cmd("mouse.speedLimit"@));
            }
        }
        let mouse_speed_limit = match r_mouse_speed_limit {
            Ok(v) => v,
            Err(e) => {
                proof {
                    lemma_subseq_of_take(
                        self.writes().skip(old(self).writes().len() as int),
                        read_order_d(),
                        6,
                    );
                }
                return Err(e);
            },
        };
        let ghost prev6 = *self;
        let r_wireless_battery_saving_mode = self.wireless_battery_saving_mode_get();
        proof {
            assert(allowed(line_cmd("wireless.battery.savingMode"@)));
            assert(read_order_d()[6] == line_cmd("wireless.battery.savingMode"@));
            lemma_step(*old(self), prev6, *self, line_cmd("wireless.battery.savingMode"@), allowed, issued, read_order_d(), 6);
        }
        let wireless_battery_saving_mode = match r_wireless_battery_saving_mode {
            Ok(v) => Some(v),
            Err(_) => None,
        };
        let ghost prev7 = *self;
        let r_wireless_rf_power_level = self.wireless_rf_power_level_get();
        proof {
            assert(allowed(line_cmd("wireless.rf.power"@)));
            assert(read_order_d()[7] == line_cmd("wireless.rf.power"@));
            lemma_step(*old(self), prev7, *self, line_cmd("wireless.rf.power"@), allowed, issued, read_order_d(), 7);
        }
        let wireless_rf_power_level = match r_wireless_rf_power_level {
            Ok(v) => Some(v),
            Err(_) => None,
        };
        let ghost prev8 = *self;
        let r_wireless_rf_channel_hop = self.wireless_rf_channel_hop_get();
        proof {
            assert(allowed(line_cmd("wireless.rf.channelHop"@)));
            assert(read_order_d()[8] == line_cmd("wireless.rf.channelHop"@));
            lemma_step(*old(self), prev8, *self, line_cmd("wireless.rf.channelHop"@), allowed, issued, read_order_d(), 8);
        }
        let wireless_rf_channel_hop = match r_wireless_rf_channel_hop {
            Ok(v) => Some(v),
            Err(_) => None,
        };
        proof {
            assert(issued =~= read_mandatory_d());
            assert(read_order_d().take(9) =~= read_order_d());
        }
        Ok((mouse_delay, mouse_acceleration_speed, mouse_acceleration_delay, mouse_wheel_speed, mouse_wheel_delay, mouse_speed_limit, wireless_battery_saving_mode, wireless_rf_power_level, wireless_rf_channel_hop))
    }

    /// Reads the whole configuration from the device, one query per field
    /// in a fixed order. A mandatory field's failure aborts the read; a
    /// hardware-dependent field's failure becomes `None`. The ledger's
    /// growth is an in-order selection from the fixed command list, drawn
    /// from the transaction's vocabulary alone, and a successful read has
    /// issued every mandatory field's query.
    #[verifier::rlimit(100)]
    pub fn settings_get(&mut self) -> (r: Result<Settings, FocusError>)
        ensures
            extended_only_by(*old(self), *final(self), |c: Seq<u8>| is_settings_read_cmd(c)),
            is_subsequence_of(
                final(self).writes().skip(old(self).writes().len() as int),
                settings_read_cmd_list(),
            ),
            r is Ok ==> issued_all(*old(self), *final(self), settings_read_mandatory_cmds()),
    {
        let ghost allowed = |c: Seq<u8>| is_settings_read_cmd(c);
        let ghost s0 = *old(self);
        let ra = self.settings_read_a();
        let ghost s1 = *self;
        let (
            keymap_custom,
            keymap_default,
            keymap_only_custom,
            settings_default_layer,
            superkeys_map,
            superkeys_wait_for,
            superkeys_timeout,
            superkeys_repeat,
            superkeys_hold_start,
            superkeys_overlap,
        ) = match ra {
            Ok(v) => v,
            Err(e) => {
                proof {
                    lemma_subseq_append(
                        self.writes().skip(s0.writes().len() as int),
                        read_order_a(),
                        read_order_b() + read_order_c() + read_order_d(),
                    );
                    lemma_read_list_splits();
                }
                return Err(e);
            },
        };
        let rb = self.settings_read_b();
        let ghost s2 = *self;
        proof {
            lemma_extended_trans(s0, s1, *self, allowed);
            lemma_suffix_concat(s0, s1, *self);
            lemma_subseq_concat(
                s1.writes().skip(s0.writes().len() as int),
                read_order_a(),
                self.writes().skip(s1.writes().len() as int),
                read_order_b(),
            );
        }
        let (
            led_mode,
            led_brightness_keys_wired,
            led_brightness_underglow_wired,
            led_brightness_keys_wireless,
            led_brightness_underglow_wireless,
            led_fade,
            led_theme,
            palette_rgb,
            palette_rgbw,
        ) = match rb {
            Ok(v) => v,
            Err(e) => {
                proof {
                    lemma_subseq_append(
                        self.writes().skip(s0.writes().len() as int),
                        read_order_a() + read_order_b(),
                        read_order_c() + read_order_d(),
                    );
                    lemma_read_list_splits();
                }
                return Err(e);
            },
        };
        let rc = self.settings_read_c();
        let ghost s3 = *self;
        proof {
            lemma_extended_trans(s0, s2, *self, allowed);
            lemma_suffix_concat(s0, s2, *self);
            lemma_subseq_concat(
                s2.writes().skip(s0.writes().len() as int),
                read_order_a() + read_order_b(),
                self.writes().skip(s2.writes().len() as int),
                read_order_c(),
            );
        }
        let (
            color_map,
            led_idle_true_sleep,
            led_idle_true_sleep_time,
            led_idle_time_limit_wired,
            led_idle_time_limit_wireless,
            qukeys_hold_timeout,
            qukeys_overlap_threshold,
            macros_map,
            mouse_speed,
        ) = match rc {
            Ok(v) => v,
            Err(e) => {
                proof {
                    lemma_subseq_append(
                        self.writes().skip(s0.writes().len() as int),
                        read_order_a() + read_order_b() + read_order_c(),
                        read_order_d(),
                    );
                    lemma_read_list_splits();
                }
                return Err(e);
            },
        };
        let rd = self.settings_read_d();
        proof {
            lemma_extended_trans(s0, s3, *self, allowed);
            lemma_suffix_concat(s0, s3, *self);
            lemma_subseq_concat(
                s3.writes().skip(s0.writes().len() as int),
                read_order_a() + read_order_b() + read_order_c(),
                self.writes().skip(s3.writes().len() as int),
                read_order_d(),
            );
            lemma_read_list_splits();
        }
        let (
            mouse_delay,
            mouse_acceleration_speed,
            mouse_acceleration_delay,
            mouse_wheel_speed,
            mouse_wheel_delay,
            mouse_speed_limit,
            wireless_battery_saving_mode,
            wireless_rf_power_level,
            wireless_rf_channel_hop,
        ) = match rd {
            Ok(v) => v,
            Err(e) => {
                return Err(e);
            },
        };
        proof {
            lemma_issued_concat(s0, s1, s2, read_mandatory_a(), read_mandatory_b());
            lemma_issued_concat(
                s0,
                s2,
                s3,
                read_mandatory_a() + read_mandatory_b(),
                read_mandatory_c(),
            );
            lemma_issued_concat(
                s0,
                s3,
                *self,
                read_mandatory_a() + read_mandatory_b() + read_mandatory_c(),
                read_mandatory_d(),
            );
            lemma_read_mandatory_split();
        }
        Ok(
            Settings {
                keymap_custom,
                keymap_default,
                keymap_only_custom,
                settings_default_layer,
                superkeys_map,
                superkeys_wait_for,
                superkeys_timeout,
                superkeys_repeat,
                superkeys_hold_start,
                superkeys_overlap,
                led_mode,
                led_brightness_keys_wired,
                led_brightness_underglow_wired,
                led_brightness_keys_wireless,
                led_brightness_underglow_wireless,
                led_fade,
                led_theme,
                palette_rgb,
                palette_rgbw,
                color_map,
                led_idle_true_sleep,
                led_idle_true_sleep_time,
                led_idle_time_limit_wired,
                led_idle_time_limit_wireless,
                qukeys_hold_timeout,
                qukeys_overlap_threshold,
                macros_map,
                mouse_speed,
                mouse_delay,
                mouse_acceleration_speed,
                mouse_acceleration_delay,
                mouse_wheel_speed,
                mouse_wheel_delay,
                mouse_speed_limit,
                wireless_battery_saving_mode,
                wireless_rf_power_level,
                wireless_rf_channel_hop,
            },
        )
    }
}

impl<T: Transport> Focus<T> {
    #[verifier::rlimit(100)]
    fn settings_set_keys(&mut self, settings: &Settings) -> (r: Result<(), FocusError>)
        ensures
            extended_only_by(
                *old(self),
                *final(self),
                |c: Seq<u8>| is_settings_write_cmd(*settings, c),
            ),
            is_subsequence_of(
                final(self).writes().skip(old(self).writes().len() as int),
                write_order_keys(*settings),
            ),
            r is Ok ==> issued_all(*old(self), *final(self), write_issued_keys(*settings))
                && settings.settings_default_layer <= MAX_LAYERS,
    {
        let ghost allowed = |c: Seq<u8>| is_settings_write_cmd(*settings, c);
        let ghost mut issued: Seq<Seq<u8>> = Seq::empty();
        proof {
            assert(old(self).writes() =~= self.writes().subrange(
                0,
                old(self).writes().len() as int,
            ));
            assert(extended_only_by(*old(self), *self, allowed));
            assert(self.writes().skip(old(self).writes().len() as int)
                =~= Seq::<Seq<u8>>::empty());
            assert(write_order_keys(*settings).take(0) =~= Seq::<Seq<u8>>::empty());
        }
        let ghost prev0 = *self;
        let r0 = self.keymap_custom_set(&settings.keymap_custom);
        proof {
            assert(allowed(line_cmd("keymap.custom "@ + encode_list(settings.keymap_custom@.map_values(|x: u16| x.as_natural())))));
            assert(write_order_keys(*settings)[0] == line_cmd("keymap.custom "@ + encode_list(settings.keymap_custom@.map_values(|x: u16| x.as_natural()))));
            lemma_step(*old(self), prev0, *self, line_cmd("keymap.custom "@ + encode_list(settings.keymap_custom@.map_values(|x: u16| x.as_natural()))), allowed, issued, write_order_keys(*settings), 0);
            if r0 is Ok {
                issued = issued.push(line_cmd("keymap.custom "@ + encode_list(settings.keymap_custom@.map_values(|x: u16| x.as_natural()))));
            }
        }
        match r0 {
            Ok(()) => {},
            Err(e) => {
                proof {
                    lemma_subseq_of_take(
                        self.writes().skip(old(self).writes().len() as int),
                        write_order_keys(*settings),
                        1,
                    );
                }
                return Err(e);
            },
        }
        let ghost prev1 = *self;
        let r1 = self.keymap_default_set(&settings.keymap_default);
        proof {
            assert(allowed(line_cmd("keymap.default "@ + encode_list(settings.keymap_default@.map_values(|x: u16| x.as_natural())))));
            assert(write_order_keys(*settings)[1] == line_cmd("keymap.default "@ + encode_list(settings.keymap_default@.map_values(|x: u16| x.as_natural()))));
            lemma_step(*old(self), prev1, *self, line_cmd("keymap.default "@ + encode_list(settings.keymap_default@.map_values(|x: u16| x.as_natural()))), allowed, issued, write_order_keys(*settings), 1);
            if r1 is Ok {
                issued = issued.push(line_cmd("keymap.default "@ + encode_list(settings.keymap_default@.map_values(|x: u16| x.as_natural()))));
            }
        }
        match r1 {
            Ok(()) => {},
            Err(e) => {
                proof {
                    lemma_subseq_of_take(
                        self.writes().skip(old(self).writes().len() as int),
                        write_order_keys(*settings),
                        2,
                    );
                }
                return Err(e);
            },
        }
        let ghost prev2 = *self;
        let r2 = self.keymap_only_custom_set(settings.keymap_only_custom);
        proof {
            assert(allowed(line_cmd("keymap.onlyCustom "@ + dec_repr(if settings.keymap_only_custom { 1nat } else { 0nat }))));
            assert(write_order_keys(*settings)[2] == line_cmd("keymap.onlyCustom "@ + dec_repr(if settings.keymap_only_custom { 1nat } else { 0nat })));
            lemma_step(*old(self), prev2, *self, line_cmd("keymap.onlyCustom "@ + dec_repr(if settings.keymap_only_custom { 1nat } else { 0nat })), allowed, issued, write_order_keys(*settings), 2);
            if r2 is Ok {
                issued = issued.push(line_cmd("keymap.onlyCustom "@ + dec_repr(if settings.keymap_only_custom { 1nat } else { 0nat })));
            }
        }
        match r2 {
            Ok(()) => {},
            Err(e) => {
                proof {
                    lemma_subseq_of_take(
                        self.writes().skip(old(self).writes().len() as int),
                        write_order_keys(*settings),
                        3,
                    );
                }
                return Err(e);
            },
        }
        let ghost prevdl = *self;
        let rdl = self.settings_default_layer_set(settings.settings_default_layer);
        proof {
            assert(allowed(line_cmd("settings.defaultLayer"@)));
            assert(allowed(line_cmd(
                "settings.defaultLayer "@ + dec_repr(settings.settings_default_layer as nat),
            )));
            assert(write_order_keys(*settings)[3] == line_cmd("settings.defaultLayer"@));
            assert(write_order_keys(*settings)[4] == line_cmd(
                "settings.defaultLayer "@ + dec_repr(settings.settings_default_layer as nat),
            ));
            lemma_step2(
                *old(self),
                prevdl,
                *self,
                line_cmd("settings.defaultLayer"@),
                line_cmd("settings.defaultLayer "@ + dec_repr(settings.settings_default_layer as nat)),
                allowed,
                issued,
                write_order_keys(*settings),
                3,
            );
            if rdl is Ok {
                issued = issued.push(line_cmd("settings.defaultLayer"@));
            }
        }
        match rdl {
            Ok(()) => {},
            Err(e) => {
                proof {
                    lemma_subseq_of_take(
                        self.writes().skip(old(self).writes().len() as int),
                        write_order_keys(*settings),
                        5,
                    );
                }
                return Err(e);
            },
        }
        let ghost prev5 = *self;
        let r5 = self.superkeys_map_set(&settings.superkeys_map);
        proof {
            assert(allowed(line_cmd("superkeys.map "@ + encode_list(settings.superkeys_map@.map_values(|x: u16| x.as_natural())))));
            assert(write_order_keys(*settings)[5] == line_cmd("superkeys.map "@ + encode_list(settings.superkeys_map@.map_values(|x: u16| x.as_natural()))));
            lemma_step(*old(self), prev5, *self, line_cmd("superkeys.map "@ + encode_list(settings.superkeys_map@.map_values(|x: u16| x.as_natural()))), allowed, issued, write_order_keys(*settings), 5);
            if r5 is Ok {
                issued = issued.push(line_cmd("superkeys.map "@ + encode_list(settings.superkeys_map@.map_values(|x: u16| x.as_natural()))));
            }
        }
        match r5 {
            Ok(()) => {},
            Err(e) => {
                proof {
                    lemma_subseq_of_take(
                        self.writes().skip(old(self).writes().len() as int),
                        write_order_keys(*settings),
                        6,
                    );
                }
                return Err(e);
            },
        }
        let ghost prev6 = *self;
        let r6 = self.superkeys_wait_for_set(settings.superkeys_wait_for);
        proof {
            assert(allowed(line_cmd("superkeys.waitfor "@ + dec_repr(settings.superkeys_wait_for as nat))));
            assert(write_order_keys(*settings)[6] == line_cmd("superkeys.waitfor "@ + dec_repr(settings.superkeys_wait_for as nat)));
            lemma_step(*old(self), prev6, *self, line_cmd("superkeys.waitfor "@ + dec_repr(settings.superkeys_wait_for as nat)), allowed, issued, write_order_keys(*settings), 6);
            if r6 is Ok {
                issued = issued.push(line_cmd("superkeys.waitfor "@ + dec_repr(settings.superkeys_wait_for as nat)));
            }
        }
        match r6 {
            Ok(()) => {},
            Err(e) => {
                proof {
                    lemma_subseq_of_take(
                        self.writes().skip(old(self).writes().len() as int),
                        write_order_keys(*settings),
                        7,
                    );
                }
                return Err(e);
            },
        }
        let ghost prev7 = *self;
        let r7 = self.superkeys_timeout_set(settings.superkeys_timeout);
        proof {
            assert(allowed(line_cmd("superkeys.timeout "@ + dec_repr(settings.superkeys_timeout as nat))));
            assert(write_order_keys(*settings)[7] == line_cmd("superkeys.timeout "@ + dec_repr(settings.superkeys_timeout as nat)));
            lemma_step(*old(self), prev7, *self, line_cmd("superkeys.timeout "@ + dec_repr(settings.superkeys_timeout as nat)), allowed, issued, write_order_keys(*settings), 7);
            if r7 is Ok {
                issued = issued.push(line_cmd("superkeys.timeout "@ + dec_repr(settings.superkeys_timeout as nat)));
            }
        }
        match r7 {
            Ok(()) => {},
            Err(e) => {
                proof {
                    lemma_subseq_of_take(
                        self.writes().skip(old(self).writes().len() as int),
                        write_order_keys(*settings),
                        8,
                    );
                }
                return Err(e);
            },
        }
        let ghost prev8 = *self;
        let r8 = self.superkeys_repeat_set(settings.superkeys_repeat);
        proof {
            assert(allowed(line_cmd("superkeys.repeat "@ + dec_repr(settings.superkeys_repeat as nat))));
            assert(write_order_keys(*settings)[8] == line_cmd("superkeys.repeat "@ + dec_repr(settings.superkeys_repeat as nat)));
            lemma_step(*old(self), prev8, *self, line_cmd("superkeys.repeat "@ + dec_repr(settings.superkeys_repeat as nat)), allowed, issued, write_order_keys(*settings), 8);
            if r8 is Ok {
                issued = issued.push(line_cmd("superkeys.repeat "@ + dec_repr(settings.superkeys_repeat as nat)));
            }
        }
        match r8 {
            Ok(()) => {},
            Err(e) => {
                proof {
                    lemma_subseq_of_take(
                        self.writes().skip(old(self).writes().len() as int),
                        write_order_keys(*settings),
                        9,
                    );
                }
                return Err(e);
            },
        }
        let ghost prev9 = *self;
        let r9 = self.superkeys_hold_start_set(settings.superkeys_hold_start);
        proof {
            assert(allowed(line_cmd("superkeys.holdstart "@ + dec_repr(settings.superkeys_hold_start as nat))));
            assert(write_order_keys(*settings)[9] == line_cmd("superkeys.holdstart "@ + dec_repr(settings.superkeys_hold_start as nat)));
            lemma_step(*old(self), prev9, *self, line_cmd("superkeys.holdstart "@ + dec_repr(settings.superkeys_hold_start as nat)), allowed, issued, write_order_keys(*settings), 9);
            if r9 is Ok {
                issued = issued.push(line_cmd("superkeys.holdstart "@ + dec_repr(settings.superkeys_hold_start as nat)));
            }
        }
        match r9 {
            Ok(()) => {},
            Err(e) => {
                proof {
                    lemma_subseq_of_take(
                        self.writes().skip(old(self).writes().len() as int),
                        write_order_keys(*settings),
                        10,
                    );
                }
                return Err(e);
            },
        }
        proof {
            assert(issued =~= write_issued_keys(*settings));
            assert(write_order_keys(*settings).take(10) =~= write_order_keys(*settings));
        }
        Ok(())
    }

    #[verifier::rlimit(100)]
    fn settings_set_leds(&mut self, settings: &Settings) -> (r: Result<(), FocusError>)
        ensures
            extended_only_by(
                *old(self),
                *final(self),
                |c: Seq<u8>| is_settings_write_cmd(*settings, c),
            ),
            is_subsequence_of(
                final(self).writes().skip(old(self).writes().len() as int),
                write_order_leds(*settings),
            ),
            r is Ok ==> issued_all(*old(self), *final(self), write_issued_leds(*settings))
                && settings.superkeys_overlap <= 80,
    {
        let ghost allowed = |c: Seq<u8>| is_settings_write_cmd(*settings, c);
        let ghost mut issued: Seq<Seq<u8>> = Seq::empty();
        proof {
            assert(old(self).writes() =~= self.writes().subrange(
                0,
                old(self).writes().len() as int,
            ));
            assert(extended_only_by(*old(self), *self, allowed));
            assert(self.writes().skip(old(self).writes().len() as int)
                =~= Seq::<Seq<u8>>::empty());
            assert(write_order_leds(*settings).take(0) =~= Seq::<Seq<u8>>::empty());
        }
        let ghost prev0 = *self;
        let r0 = self.superkeys_overlap_set(settings.superkeys_overlap);
        proof {
            assert(allowed(line_cmd("superkeys.overlap "@ + dec_repr(settings.superkeys_overlap as nat))));
            assert(write_order_leds(*settings)[0] == line_cmd("superkeys.overlap "@ + dec_repr(settings.superkeys_overlap as nat)));
            lemma_step(*old(self), prev0, *self, line_cmd("superkeys.overlap "@ + dec_repr(settings.superkeys_overlap as nat)), allowed, issued, write_order_leds(*settings), 0);
            if r0 is Ok {
                issued = issued.push(line_cmd("superkeys.overlap "@ + dec_repr(settings.superkeys_overlap as nat)));
            }
        }
        match r0 {
            Ok(()) => {},
            Err(e) => {
                proof {
                    lemma_subseq_of_take(
                        self.writes().skip(old(self).writes().len() as int),
                        write_order_leds(*settings),
                        1,
                    );
                }
                return Err(e);
            },
        }
        let ghost prev1 = *self;
        let r1 = self.led_mode_set(settings.led_mode);
        proof {
            assert(allowed(line_cmd("led.mode "@ + dec_repr(settings.led_mode.spec_wire_code()))));
            assert(write_order_leds(*settings)[1] == line_cmd("led.mode "@ + dec_repr(settings.led_mode.spec_wire_code())));
            lemma_step(*old(self), prev1, *self, line_cmd("led.mode "@ + dec_repr(settings.led_mode.spec_wire_code())), allowed, issued, write_order_leds(*settings), 1);
            if r1 is Ok {
                issued = issued.push(line_cmd("led.mode "@ + dec_repr(settings.led_mode.spec_wire_code())));
            }
        }
        match r1 {
            Ok(()) => {},
            Err(e) => {
                proof {
                    lemma_subseq_of_take(
                        self.writes().skip(old(self).writes().len() as int),
                        write_order_leds(*settings),
                        2,
                    );
                }
                return Err(e);
            },
        }
        let ghost prev2 = *self;
        let r2 = self.led_brightness_top_set(settings.led_brightness_keys_wired);
        proof {
            assert(allowed(line_cmd("led.brightness "@ + dec_repr(settings.led_brightness_keys_wired as nat))));
            assert(write_order_leds(*settings)[2] == line_cmd("led.brightness "@ + dec_repr(settings.led_brightness_keys_wired as nat)));
            lemma_step(*old(self), prev2, *self, line_cmd("led.brightness "@ + dec_repr(settings.led_brightness_keys_wired as nat)), allowed, issued, write_order_leds(*settings), 2);
            if r2 is Ok {
                issued = issued.push(line_cmd("led.brightness "@ + dec_repr(settings.led_brightness_keys_wired as nat)));
            }
        }
        match r2 {
            Ok(()) => {},
            Err(e) => {
                proof {
                    lemma_subseq_of_take(
                        self.writes().skip(old(self).writes().len() as int),
                        write_order_leds(*settings),
                        3,
                    );
                }
                return Err(e);
            },
        }
        if let Some(value) = settings.led_brightness_underglow_wired {
            let ghost prev3 = *self;
            let r3 = self.led_brightness_underglow_wired_set(value);
            proof {
                assert(settings.led_brightness_underglow_wired == Some(value));
                assert(allowed(line_cmd("led.brightnessUG "@ + dec_repr(settings.led_brightness_underglow_wired.unwrap() as nat))));
                assert(write_order_leds(*settings)[3] == line_cmd("led.brightnessUG "@ + dec_repr(settings.led_brightness_underglow_wired.unwrap() as nat)));
                lemma_step(*old(self), prev3, *self, line_cmd("led.brightnessUG "@ + dec_repr(settings.led_brightness_underglow_wired.unwrap() as nat)), allowed, issued, write_order_leds(*settings), 3);
                if r3 is Ok {
                    issued = issued.push(line_cmd("led.brightnessUG "@ + dec_repr(settings.led_brightness_underglow_wired.unwrap() as nat)));
                }
            }
            match r3 {
                Ok(()) => {},
                Err(e) => {
                    proof {
                    lemma_subseq_of_take(
                        self.writes().skip(old(self).writes().len() as int),
                        write_order_leds(*settings),
                        4,
                    );
                }
                return Err(e);
                },
            }
        } else {
            proof {
                lemma_subseq_extend(
                    self.writes().skip(old(self).writes().len() as int),
                    write_order_leds(*settings).take(3),
                    write_order_leds(*settings)[3],
                );
                assert(write_order_leds(*settings).take(4) =~= write_order_leds(
                    *settings,
                ).take(3).push(write_order_leds(*settings)[3]));
            }
        }
        if let Some(value) = settings.led_brightness_keys_wireless {
            let ghost prev4 = *self;
            let r4 = self.led_brightness_keys_wireless_set(value);
            proof {
                assert(settings.led_brightness_keys_wireless == Some(value));
                assert(allowed(line_cmd("led.brightness.wireless "@ + dec_repr(settings.led_brightness_keys_wireless.unwrap() as nat))));
                assert(write_order_leds(*settings)[4] == line_cmd("led.brightness.wireless "@ + dec_repr(settings.led_brightness_keys_wireless.unwrap() as nat)));
                lemma_step(*old(self), prev4, *self, line_cmd("led.brightness.wireless "@ + dec_repr(settings.led_brightness_keys_wireless.unwrap() as nat)), allowed, issued, write_order_leds(*settings), 4);
                if r4 is Ok {
                    issued = issued.push(line_cmd("led.brightness.wireless "@ + dec_repr(settings.led_brightness_keys_wireless.unwrap() as nat)));
                }
            }
            match r4 {
                Ok(()) => {},
                Err(e) => {
                    proof {
                    lemma_subseq_of_take(
                        self.writes().skip(old(self).writes().len() as int),
                        write_order_leds(*settings),
                        5,
                    );
                }
                return Err(e);
                },
            }
        } else {
            proof {
                lemma_subseq_extend(
                    self.writes().skip(old(self).writes().len() as int),
                    write_order_leds(*settings).take(4),
                    write_order_leds(*settings)[4],
                );
                assert(write_order_leds(*settings).take(5) =~= write_order_leds(
                    *settings,
                ).take(4).push(write_order_leds(*settings)[4]));
            }
        }
        if let Some(value) = settings.led_brightness_underglow_wireless {
            let ghost prev5 = *self;
            let r5 = self.led_brightness_underglow_wireless_set(value);
            proof {
                assert(settings.led_brightness_underglow_wireless == Some(value));
                assert(allowed(line_cmd("led.brightnessUG.wireless "@ + dec_repr(settings.led_brightness_underglow_wireless.unwrap() as nat))));
                assert(write_order_leds(*settings)[5] == line_cmd("led.brightnessUG.wireless "@ + dec_repr(settings.led_brightness_underglow_wireless.unwrap() as nat)));
                lemma_step(*old(self), prev5, *self, line_cmd("led.brightnessUG.wireless "@ + dec_repr(settings.led_brightness_underglow_wireless.unwrap() as nat)), allowed, issued, write_order_leds(*settings), 5);
                if r5 is Ok {
                    issued = issued.push(line_cmd("led.brightnessUG.wireless "@ + dec_repr(settings.led_brightness_underglow_wireless.unwrap() as nat)));
                }
            }
            match r5 {
                Ok(()) => {},
                Err(e) => {
                    proof {
                    lemma_subseq_of_take(
                        self.writes().skip(old(self).writes().len() as int),
                        write_order_leds(*settings),
                        6,
                    );
                }
                return Err(e);
                },
            }
        } else {
            proof {
                lemma_subseq_extend(
                    self.writes().skip(old(self).writes().len() as int),
                    write_order_leds(*settings).take(5),
                    write_order_leds(*settings)[5],
                );
                assert(write_order_leds(*settings).take(6) =~= write_order_leds(
                    *settings,
                ).take(5).push(write_order_leds(*settings)[5]));
            }
        }
        if let Some(value) = settings.led_fade {
            let ghost prev6 = *self;
            let r6 = self.led_fade_set(value);
            proof {
                assert(settings.led_fade == Some(value));
                assert(allowed(line_cmd("led.fade "@ + dec_repr(settings.led_fade.unwrap() as nat))));
                assert(write_order_leds(*settings)[6] == line_cmd("led.fade "@ + dec_repr(settings.led_fade.unwrap() as nat)));
                lemma_step(*old(self), prev6, *self, line_cmd("led.fade "@ + dec_repr(settings.led_fade.unwrap() as nat)), allowed, issued, write_order_leds(*settings), 6);
                if r6 is Ok {
                    issued = issued.push(line_cmd("led.fade "@ + dec_repr(settings.led_fade.unwrap() as nat)));
                }
            }
            match r6 {
                Ok(()) => {},
                Err(e) => {
                    proof {
                    lemma_subseq_of_take(
                        self.writes().skip(old(self).writes().len() as int),
                        write_order_leds(*settings),
                        7,
                    );
                }
                return Err(e);
                },
            }
        } else {
            proof {
                lemma_subseq_extend(
                    self.writes().skip(old(self).writes().len() as int),
                    write_order_leds(*settings).take(6),
                    write_order_leds(*settings)[6],
                );
                assert(write_order_leds(*settings).take(7) =~= write_order_leds(
                    *settings,
                ).take(6).push(write_order_leds(*settings)[6]));
            }
        }
        let ghost prev7 = *self;
        let r7 = self.led_theme_set(&settings.led_theme);
        proof {
            assert(allowed(line_cmd("led.theme "@ + encode_list(flat_rgb(settings.led_theme@)))));
            assert(write_order_leds(*settings)[7] == line_cmd("led.theme "@ + encode_list(flat_rgb(settings.led_theme@))));
            lemma_step(*old(self), prev7, *self, line_cmd("led.theme "@ + encode_list(flat_rgb(settings.led_theme@))), allowed, issued, write_order_leds(*settings), 7);
            if r7 is Ok {
                issued = issued.push(line_cmd("led.theme "@ + encode_list(flat_rgb(settings.led_theme@))));
            }
        }
        match r7 {
            Ok(()) => {},
            Err(e) => {
                proof {
                    lemma_subseq_of_take(
                        self.writes().skip(old(self).writes().len() as int),
                        write_order_leds(*settings),
                        8,
                    );
                }
                return Err(e);
            },
        }
        match &settings.palette_rgb {
            Some(value) => {
                let ghost prev8 = *self;
                let r8 = self.palette_rgb_set(value);
                proof {
                    assert(settings.palette_rgb matches Some(v) && v == *value);
                    assert(allowed(line_cmd("palette "@ + encode_list(flat_rgb(settings.palette_rgb.unwrap()@)))));
                    assert(write_order_leds(*settings)[8] == line_cmd("palette "@ + encode_list(flat_rgb(settings.palette_rgb.unwrap()@))));
                    lemma_step(*old(self), prev8, *self, line_cmd("palette "@ + encode_list(flat_rgb(settings.palette_rgb.unwrap()@))), allowed, issued, write_order_leds(*settings), 8);
                    if r8 is Ok {
                        issued = issued.push(line_cmd("palette "@ + encode_list(flat_rgb(settings.palette_rgb.unwrap()@))));
                    }
                }
                match r8 {
                    Ok(()) => {},
                    Err(e) => {
                    proof {
                    lemma_subseq_of_take(
                        self.writes().skip(old(self).writes().len() as int),
                        write_order_leds(*settings),
                        9,
                    );
                }
                return Err(e);
                    },
                }
            },
            None => {
                proof {
                    lemma_subseq_extend(
                        self.writes().skip(old(self).writes().len() as int),
                        write_order_leds(*settings).take(8),
                        write_order_leds(*settings)[8],
                    );
                    assert(write_order_leds(*settings).take(9) =~= write_order_leds(
                        *settings,
                    ).take(8).push(write_order_leds(*settings)[8]));
                }
            },
        }
        proof {
            assert(issued =~= write_issued_leds(*settings));
            assert(write_order_leds(*settings).take(9) =~= write_order_leds(*settings));
        }
        Ok(())
    }

    #[verifier::rlimit(100)]
    fn settings_set_maps(&mut self, settings: &Settings) -> (r: Result<(), FocusError>)
        ensures
            extended_only_by(
                *old(self),
                *final(self),
                |c: Seq<u8>| is_settings_write_cmd(*settings, c),
            ),
            is_subsequence_of(
                final(self).writes().skip(old(self).writes().len() as int),
                write_order_maps(*settings),
            ),
            r is Ok ==> issued_all(*old(self), *final(self), write_issued_maps(*settings))
                && (settings.led_idle_true_sleep_time matches Some(v) ==> v <= 65000) && settings.led_idle_time_limit_wired <= 65000 && (settings.led_idle_time_limit_wireless matches Some(v2) ==> v2 <= 65000),
    {
        let ghost allowed = |c: Seq<u8>| is_settings_write_cmd(*settings, c);
        let ghost mut issued: Seq<Seq<u8>> = Seq::empty();
        proof {
            assert(old(self).writes() =~= self.writes().subrange(
                0,
                old(self).writes().len() as int,
            ));
            assert(extended_only_by(*old(self), *self, allowed));
            assert(self.writes().skip(old(self).writes().len() as int)
                =~= Seq::<Seq<u8>>::empty());
            assert(write_order_maps(*settings).take(0) =~= Seq::<Seq<u8>>::empty());
        }
        match &settings.palette_rgbw {
            Some(value) => {
                let ghost prev0 = *self;
                let r0 = self.palette_rgbw_set(value);
                proof {
                    assert(settings.palette_rgbw matches Some(v) && v == *value);
                    assert(allowed(line_cmd("palette "@ + encode_list(flat_rgbw(settings.palette_rgbw.unwrap()@)))));
                    assert(write_order_maps(*settings)[0] == line_cmd("palette "@ + encode_list(flat_rgbw(settings.palette_rgbw.unwrap()@))));
                    lemma_step(*old(self), prev0, *self, line_cmd("palette "@ + encode_list(flat_rgbw(settings.palette_rgbw.unwrap()@))), allowed, issued, write_order_maps(*settings), 0);
                    if r0 is Ok {
                        issued = issued.push(line_cmd("palette "@ + encode_list(flat_rgbw(settings.palette_rgbw.unwrap()@))));
                    }
                }
                match r0 {
                    Ok(()) => {},
                    Err(e) => {
                    proof {
                    lemma_subseq_of_take(
                        self.writes().skip(old(self).writes().len() as int),
                        write_order_maps(*settings),
                        1,
                    );
                }
                return Err(e);
                    },
                }
            },
            None => {
                proof {
                    lemma_subseq_extend(
                        self.writes().skip(old(self).writes().len() as int),
                        write_order_maps(*settings).take(0),
                        write_order_maps(*settings)[0],
                    );
                    assert(write_order_maps(*settings).take(1) =~= write_order_maps(
                        *settings,
                    ).take(0).push(write_order_maps(*settings)[0]));
                }
            },
        }
        let ghost prev1 = *self;
        let r1 = self.color_map_set(&settings.color_map);
        proof {
            assert(allowed(line_cmd("colormap.map "@ + encode_list(settings.color_map@.map_values(|x: u8| x.as_natural())))));
            assert(write_order_maps(*settings)[1] == line_cmd("colormap.map "@ + encode_list(settings.color_map@.map_values(|x: u8| x.as_natural()))));
            lemma_step(*old(self), prev1, *self, line_cmd("colormap.map "@ + encode_list(settings.color_map@.map_values(|x: u8| x.as_natural()))), allowed, issued, write_order_maps(*settings), 1);
            if r1 is Ok {
                issued = issued.push(line_cmd("colormap.map "@ + encode_list(settings.color_map@.map_values(|x: u8| x.as_natural()))));
            }
        }
        match r1 {
            Ok(()) => {},
            Err(e) => {
                proof {
                    lemma_subseq_of_take(
                        self.writes().skip(old(self).writes().len() as int),
                        write_order_maps(*settings),
                        2,
                    );
                }
                return Err(e);
            },
        }
        if let Some(value) = settings.led_idle_true_sleep {
            let ghost prev2 = *self;
            let r2 = self.led_idle_true_sleep_set(value);
            proof {
                assert(settings.led_idle_true_sleep == Some(value));
                assert(allowed(line_cmd("idleleds.true_sleep "@ + dec_repr(if settings.led_idle_true_sleep.unwrap() { 1nat } else { 0nat }))));
                assert(write_order_maps(*settings)[2] == line_cmd("idleleds.true_sleep "@ + dec_repr(if settings.led_idle_true_sleep.unwrap() { 1nat } else { 0nat })));
                lemma_step(*old(self), prev2, *self, line_cmd("idleleds.true_sleep "@ + dec_repr(if settings.led_idle_true_sleep.unwrap() { 1nat } else { 0nat })), allowed, issued, write_order_maps(*settings), 2);
                if r2 is Ok {
                    issued = issued.push(line_cmd("idleleds.true_sleep "@ + dec_repr(if settings.led_idle_true_sleep.unwrap() { 1nat } else { 0nat })));
                }
            }
            match r2 {
                Ok(()) => {},
                Err(e) => {
                    proof {
                    lemma_subseq_of_take(
                        self.writes().skip(old(self).writes().len() as int),
                        write_order_maps(*settings),
                        3,
                    );
                }
                return Err(e);
                },
            }
        } else {
            proof {
                lemma_subseq_extend(
                    self.writes().skip(old(self).writes().len() as int),
                    write_order_maps(*settings).take(2),
                    write_order_maps(*settings)[2],
                );
                assert(write_order_maps(*settings).take(3) =~= write_order_maps(
                    *settings,
                ).take(2).push(write_order_maps(*settings)[2]));
            }
        }
        if let Some(value) = settings.led_idle_true_sleep_time {
            let ghost prev3 = *self;
            let r3 = self.led_idle_true_sleep_time_set(value);
            proof {
                assert(settings.led_idle_true_sleep_time == Some(value));
                assert(allowed(line_cmd("idleleds.true_sleep_time "@ + dec_repr(settings.led_idle_true_sleep_time.unwrap() as nat))));
                assert(write_order_maps(*settings)[3] == line_cmd("idleleds.true_sleep_time "@ + dec_repr(settings.led_idle_true_sleep_time.unwrap() as nat)));
                lemma_step(*old(self), prev3, *self, line_cmd("idleleds.true_sleep_time "@ + dec_repr(settings.led_idle_true_sleep_time.unwrap() as nat)), allowed, issued, write_order_maps(*settings), 3);
                if r3 is Ok {
                    issued = issued.push(line_cmd("idleleds.true_sleep_time "@ + dec_repr(settings.led_idle_true_sleep_time.unwrap() as nat)));
                }
            }
            match r3 {
                Ok(()) => {},
                Err(e) => {
                    proof {
                    lemma_subseq_of_take(
                        self.writes().skip(old(self).writes().len() as int),
                        write_order_maps(*settings),
                        4,
                    );
                }
                return Err(e);
                },
            }
        } else {
            proof {
                lemma_subseq_extend(
                    self.writes().skip(old(self).writes().len() as int),
                    write_order_maps(*settings).take(3),
                    write_order_maps(*settings)[3],
                );
                assert(write_order_maps(*settings).take(4) =~= write_order_maps(
                    *settings,
                ).take(3).push(write_order_maps(*settings)[3]));
            }
        }
        let ghost prev4 = *self;
        let r4 = self.led_idle_time_limit_wired_set(settings.led_idle_time_limit_wired);
        proof {
            assert(allowed(line_cmd("idleleds.time_limit "@ + dec_repr(settings.led_idle_time_limit_wired as nat))));
            assert(write_order_maps(*settings)[4] == line_cmd("idleleds.time_limit "@ + dec_repr(settings.led_idle_time_limit_wired as nat)));
            lemma_step(*old(self), prev4, *self, line_cmd("idleleds.time_limit "@ + dec_repr(settings.led_idle_time_limit_wired as nat)), allowed, issued, write_order_maps(*settings), 4);
            if r4 is Ok {
                issued = issued.push(line_cmd("idleleds.time_limit "@ + dec_repr(settings.led_idle_time_limit_wired as nat)));
            }
        }
        match r4 {
            Ok(()) => {},
            Err(e) => {
                proof {
                    lemma_subseq_of_take(
                        self.writes().skip(old(self).writes().len() as int),
                        write_order_maps(*settings),
                        5,
                    );
                }
                return Err(e);
            },
        }
        if let Some(value) = settings.led_idle_time_limit_wireless {
            let ghost prev5 = *self;
            let r5 = self.led_idle_time_limit_wireless_set(value);
            proof {
                assert(settings.led_idle_time_limit_wireless == Some(value));
                assert(allowed(line_cmd("idleleds.wireless "@ + dec_repr(settings.led_idle_time_limit_wireless.unwrap() as nat))));
                assert(write_order_maps(*settings)[5] == line_cmd("idleleds.wireless "@ + dec_repr(settings.led_idle_time_limit_wireless.unwrap() as nat)));
                lemma_step(*old(self), prev5, *self, line_cmd("idleleds.wireless "@ + dec_repr(settings.led_idle_time_limit_wireless.unwrap() as nat)), allowed, issued, write_order_maps(*settings), 5);
                if r5 is Ok {
                    issued = issued.push(line_cmd("idleleds.wireless "@ + dec_repr(settings.led_idle_time_limit_wireless.unwrap() as nat)));
                }
            }
            match r5 {
                Ok(()) => {},
                Err(e) => {
                    proof {
                    lemma_subseq_of_take(
                        self.writes().skip(old(self).writes().len() as int),
                        write_order_maps(*settings),
                        6,
                    );
                }
                return Err(e);
                },
            }
        } else {
            proof {
                lemma_subseq_extend(
                    self.writes().skip(old(self).writes().len() as int),
                    write_order_maps(*settings).take(5),
                    write_order_maps(*settings)[5],
                );
                assert(write_order_maps(*settings).take(6) =~= write_order_maps(
                    *settings,
                ).take(5).push(write_order_maps(*settings)[5]));
            }
        }
        let ghost prev6 = *self;
        let r6 = self.qukeys_hold_timeout_set(settings.qukeys_hold_timeout);
        proof {
            assert(allowed(line_cmd("qukeys.holdTimeout "@ + dec_repr(settings.qukeys_hold_timeout as nat))));
            assert(write_order_maps(*settings)[6] == line_cmd("qukeys.holdTimeout "@ + dec_repr(settings.qukeys_hold_timeout as nat)));
            lemma_step(*old(self), prev6, *self, line_cmd("qukeys.holdTimeout "@ + dec_repr(settings.qukeys_hold_timeout as nat)), allowed, issued, write_order_maps(*settings), 6);
            if r6 is Ok {
                issued = issued.push(line_cmd("qukeys.holdTimeout "@ + dec_repr(settings.qukeys_hold_timeout as nat)));
            }
        }
        match r6 {
            Ok(()) => {},
            Err(e) => {
                proof {
                    lemma_subseq_of_take(
                        self.writes().skip(old(self).writes().len() as int),
                        write_order_maps(*settings),
                        7,
                    );
                }
                return Err(e);
            },
        }
        let ghost prev7 = *self;
        let r7 = self.qukeys_overlap_threshold_set(settings.qukeys_overlap_threshold);
        proof {
            assert(allowed(line_cmd("qukeys.overlapThreshold "@ + dec_repr(settings.qukeys_overlap_threshold as nat))));
            assert(write_order_maps(*settings)[7] == line_cmd("qukeys.overlapThreshold "@ + dec_repr(settings.qukeys_overlap_threshold as nat)));
            lemma_step(*old(self), prev7, *self, line_cmd("qukeys.overlapThreshold "@ + dec_repr(settings.qukeys_overlap_threshold as nat)), allowed, issued, write_order_maps(*settings), 7);
            if r7 is Ok {
                issued = issued.push(line_cmd("qukeys.overlapThreshold "@ + dec_repr(settings.qukeys_overlap_threshold as nat)));
            }
        }
        match r7 {
            Ok(()) => {},
            Err(e) => {
                proof {
                    lemma_subseq_of_take(
                        self.writes().skip(old(self).writes().len() as int),
                        write_order_maps(*settings),
                        8,
                    );
                }
                return Err(e);
            },
        }
        let ghost prev8 = *self;
        let r8 = self.macros_map_set(&settings.macros_map);
        proof {
            assert(allowed(line_cmd("macros.map "@ + encode_list(settings.macros_map@.map_values(|x: u8| x.as_natural())))));
            assert(write_order_maps(*settings)[8] == line_cmd("macros.map "@ + encode_list(settings.macros_map@.map_values(|x: u8| x.as_natural()))));
            lemma_step(*old(self), prev8, *self, line_cmd("macros.map "@ + encode_list(settings.macros_map@.map_values(|x: u8| x.as_natural()))), allowed, issued, write_order_maps(*settings), 8);
            if r8 is Ok {
                issued = issued.push(line_cmd("macros.map "@ + encode_list(settings.macros_map@.map_values(|x: u8| x.as_natural()))));
            }
        }
        match r8 {
            Ok(()) => {},
            Err(e) => {
                proof {
                    lemma_subseq_of_take(
                        self.writes().skip(old(self).writes().len() as int),
                        write_order_maps(*settings),
                        9,
                    );
                }
                return Err(e);
            },
        }
        proof {
            assert(issued =~= write_issued_maps(*settings));
            assert(write_order_maps(*settings).take(9) =~= write_order_maps(*settings));
        }
        Ok(())
    }

    #[verifier::rlimit(100)]
    fn settings_set_input(&mut self, settings: &Settings) -> (r: Result<(), FocusError>)
        ensures
            extended_only_by(
                *old(self),
                *final(self),
                |c: Seq<u8>| is_settings_write_cmd(*settings, c),
            ),
            is_subsequence_of(
                final(self).writes().skip(old(self).writes().len() as int),
                write_order_input(*settings),
            ),
            r is Ok ==> issued_all(*old(self), *final(self), write_issued_input(*settings))
                && settings.mouse_speed <= 127,
    {
        let ghost allowed = |c: Seq<u8>| is_settings_write_cmd(*settings, c);
        let ghost mut issued: Seq<Seq<u8>> = Seq::empty();
        proof {
            assert(old(self).writes() =~= self.writes().subrange(
                0,
                old(self).writes().len() as int,
            ));
            assert(extended_only_by(*old(self), *self, allowed));
            assert(self.writes().skip(old(self).writes().len() as int)
                =~= Seq::<Seq<u8>>::empty());
            assert(write_order_input(*settings).take(0) =~= Seq::<Seq<u8>>::empty());
        }
        let ghost prev0 = *self;
        let r0 = self.mouse_speed_set(settings.mouse_speed);
        proof {
            assert(allowed(line_cmd("mouse.speed "@ + dec_repr(settings.mouse_speed as nat))));
            assert(write_order_input(*settings)[0] == line_cmd("mouse.speed "@ + dec_repr(settings.mouse_speed as nat)));
            lemma_step(*old(self), prev0, *self, line_cmd("mouse.speed "@ + dec_repr(settings.mouse_speed as nat)), allowed, issued, write_order_input(*settings), 0);
            if r0 is Ok {
                issued = issued.push(line_cmd("mouse.speed "@ + dec_repr(settings.mouse_speed as nat)));
            }
        }
        match r0 {
            Ok(()) => {},
            Err(e) => {
                proof {
                    lemma_subseq_of_take(
                        self.writes().skip(old(self).writes().len() as int),
                        write_order_input(*settings),
                        1,
                    );
                }
                return Err(e);
            },
        }
        let ghost prev1 = *self;
        let r1 = self.mouse_delay_set(settings.mouse_delay);
        proof {
            assert(allowed(line_cmd("mouse.speedDelay "@ + dec_repr(settings.mouse_delay as nat))));
            assert(write_order_input(*settings)[1] == line_cmd("mouse.speedDelay "@ + dec_repr(settings.mouse_delay as nat)));
            lemma_step(*old(self), prev1, *self, line_cmd("mouse.speedDelay "@ + dec_repr(settings.mouse_delay as nat)), allowed, issued, write_order_input(*settings), 1);
            if r1 is Ok {
                issued = issued.push(line_cmd("mouse.speedDelay "@ + dec_repr(settings.mouse_delay as nat)));
            }
        }
        match r1 {
            Ok(()) => {},
            Err(e) => {
                proof {
                    lemma_subseq_of_take(
                        self.writes().skip(old(self).writes().len() as int),
                        write_order_input(*settings),
                        2,
                    );
                }
                return Err(e);
            },
        }
        let ghost prev2 = *self;
        let r2 = self.mouse_acceleration_speed_set(settings.mouse_acceleration_speed);
        proof {
            assert(allowed(line_cmd("mouse.accelSpeed "@ + dec_repr(settings.mouse_acceleration_speed as nat))));
            assert(write_order_input(*settings)[2] == line_cmd("mouse.accelSpeed "@ + dec_repr(settings.mouse_acceleration_speed as nat)));
            lemma_step(*old(self), prev2, *self, line_cmd("mouse.accelSpeed "@ + dec_repr(settings.mouse_acceleration_speed as nat)), allowed, issued, write_order_input(*settings), 2);
            if r2 is Ok {
                issued = issued.push(line_cmd("mouse.accelSpeed "@ + dec_repr(settings.mouse_acceleration_speed as nat)));
            }
        }
        match r2 {
            Ok(()) => {},
            Err(e) => {
                proof {
                    lemma_subseq_of_take(
                        self.writes().skip(old(self).writes().len() as int),
                        write_order_input(*settings),
                        3,
                    );
                }
                return Err(e);
            },
        }
        let ghost prev3 = *self;
        let r3 = self.mouse_acceleration_delay_set(settings.mouse_acceleration_delay);
        proof {
            assert(allowed(line_cmd("mouse.accelDelay "@ + dec_repr(settings.mouse_acceleration_delay as nat))));
            assert(write_order_input(*settings)[3] == line_cmd("mouse.accelDelay "@ + dec_repr(settings.mouse_acceleration_delay as nat)));
            lemma_step(*old(self), prev3, *self, line_cmd("mouse.accelDelay "@ + dec_repr(settings.mouse_acceleration_delay as nat)), allowed, issued, write_order_input(*settings), 3);
            if r3 is Ok {
                issued = issued.push(line_cmd("mouse.accelDelay "@ + dec_repr(settings.mouse_acceleration_delay as nat)));
            }
        }
        match r3 {
            Ok(()) => {},
            Err(e) => {
                proof {
                    lemma_subseq_of_take(
                        self.writes().skip(old(self).writes().len() as int),
                        write_order_input(*settings),
                        4,
                    );
                }
                return Err(e);
            },
        }
        let ghost prev4 = *self;
        let r4 = self.mouse_wheel_speed_set(settings.mouse_wheel_speed);
        proof {
            assert(allowed(line_cmd("mouse.wheelSpeed "@ + dec_repr(settings.mouse_wheel_speed as nat))));
            assert(write_order_input(*settings)[4] == line_cmd("mouse.wheelSpeed "@ + dec_repr(settings.mouse_wheel_speed as nat)));
            lemma_step(*old(self), prev4, *self, line_cmd("mouse.wheelSpeed "@ + dec_repr(settings.mouse_wheel_speed as nat)), allowed, issued, write_order_input(*settings), 4);
            if r4 is Ok {
                issued = issued.push(line_cmd("mouse.wheelSpeed "@ + dec_repr(settings.mouse_wheel_speed as nat)));
            }
        }
        match r4 {
            Ok(()) => {},
            Err(e) => {
                proof {
                    lemma_subseq_of_take(
                        self.writes().skip(old(self).writes().len() as int),
                        write_order_input(*settings),
                        5,
                    );
                }
                return Err(e);
            },
        }
        let ghost prev5 = *self;
        let r5 = self.mouse_wheel_delay_set(settings.mouse_wheel_delay);
        proof {
            assert(allowed(line_cmd("mouse.wheelDelay "@ + dec_repr(settings.mouse_wheel_delay as nat))));
            assert(write_order_input(*settings)[5] == line_cmd("mouse.wheelDelay "@ + dec_repr(settings.mouse_wheel_delay as nat)));
            lemma_step(*old(self), prev5, *self, line_cmd("mouse.wheelDelay "@ + dec_repr(settings.mouse_wheel_delay as nat)), allowed, issued, write_order_input(*settings), 5);
            if r5 is Ok {
                issued = issued.push(line_cmd("mouse.wheelDelay "@ + dec_repr(settings.mouse_wheel_delay as nat)));
            }
        }
        match r5 {
            Ok(()) => {},
            Err(e) => {
                proof {
                    lemma_subseq_of_take(
                        self.writes().skip(old(self).writes().len() as int),
                        write_order_input(*settings),
                        6,
                    );
                }
                return Err(e);
            },
        }
        let ghost prev6 = *self;
        let r6 = self.mouse_speed_limit_set(settings.mouse_speed_limit);
        proof {
            assert(allowed(line_cmd("mouse.speedLimit "@ + dec_repr(settings.mouse_speed_limit as nat))));
            assert(write_order_input(*settings)[6] == line_cmd("mouse.speedLimit "@ + dec_repr(settings.mouse_speed_limit as nat)));
            lemma_step(*old(self), prev6, *self, line_cmd("mouse.speedLimit "@ + dec_repr(settings.mouse_speed_limit as nat)), allowed, issued, write_order_input(*settings), 6);
            if r6 is Ok {
                issued = issued.push(line_cmd("mouse.speedLimit "@ + dec_repr(settings.mouse_speed_limit as nat)));
            }
        }
        match r6 {
            Ok(()) => {},
            Err(e) => {
                proof {
                    lemma_subseq_of_take(
                        self.writes().skip(old(self).writes().len() as int),
                        write_order_input(*settings),
                        7,
                    );
                }
                return Err(e);
            },
        }
        if let Some(value) = settings.wireless_battery_saving_mode {
            let ghost prev7 = *self;
            let r7 = self.wireless_battery_saving_mode_set(value);
            proof {
                assert(settings.wireless_battery_saving_mode == Some(value));
                assert(allowed(line_cmd("wireless.battery.savingMode "@ + dec_repr(if settings.wireless_battery_saving_mode.unwrap() { 1nat } else { 0nat }))));
                assert(write_order_input(*settings)[7] == line_cmd("wireless.battery.savingMode "@ + dec_repr(if settings.wireless_battery_saving_mode.unwrap() { 1nat } else { 0nat })));
                lemma_step(*old(self), prev7, *self, line_cmd("wireless.battery.savingMode "@ + dec_repr(if settings.wireless_battery_saving_mode.unwrap() { 1nat } else { 0nat })), allowed, issued, write_order_input(*settings), 7);
                if r7 is Ok {
                    issued = issued.push(line_cmd("wireless.battery.savingMode "@ + dec_repr(if settings.wireless_battery_saving_mode.unwrap() { 1nat } else { 0nat })));
                }
            }
            match r7 {
                Ok(()) => {},
                Err(e) => {
                    proof {
                    lemma_subseq_of_take(
                        self.writes().skip(old(self).writes().len() as int),
                        write_order_input(*settings),
                        8,
                    );
                }
                return Err(e);
                },
            }
        } else {
            proof {
                lemma_subseq_extend(
                    self.writes().skip(old(self).writes().len() as int),
                    write_order_input(*settings).take(7),
                    write_order_input(*settings)[7],
                );
                assert(write_order_input(*settings).take(8) =~= write_order_input(
                    *settings,
                ).take(7).push(write_order_input(*settings)[7]));
            }
        }
        if let Some(value) = settings.wireless_rf_power_level {
            let ghost prev8 = *self;
            let r8 = self.wireless_rf_power_level_set(value);
            proof {
                assert(settings.wireless_rf_power_level == Some(value));
                assert(allowed(line_cmd("wireless.rf.power "@ + dec_repr(settings.wireless_rf_power_level.unwrap().spec_wire_code()))));
                assert(write_order_input(*settings)[8] == line_cmd("wireless.rf.power "@ + dec_repr(settings.wireless_rf_power_level.unwrap().spec_wire_code())));
                lemma_step(*old(self), prev8, *self, line_cmd("wireless.rf.power "@ + dec_repr(settings.wireless_rf_power_level.unwrap().spec_wire_code())), allowed, issued, write_order_input(*settings), 8);
                if r8 is Ok {
                    issued = issued.push(line_cmd("wireless.rf.power "@ + dec_repr(settings.wireless_rf_power_level.unwrap().spec_wire_code())));
                }
            }
            match r8 {
                Ok(()) => {},
                Err(e) => {
                    proof {
                    lemma_subseq_of_take(
                        self.writes().skip(old(self).writes().len() as int),
                        write_order_input(*settings),
                        9,
                    );
                }
                return Err(e);
                },
            }
        } else {
            proof {
                lemma_subseq_extend(
                    self.writes().skip(old(self).writes().len() as int),
                    write_order_input(*settings).take(8),
                    write_order_input(*settings)[8],
                );
                assert(write_order_input(*settings).take(9) =~= write_order_input(
                    *settings,
                ).take(8).push(write_order_input(*settings)[8]));
            }
        }
        if let Some(value) = settings.wireless_rf_channel_hop {
            let ghost prev9 = *self;
            let r9 = self.wireless_rf_channel_hop_set(value);
            proof {
                assert(settings.wireless_rf_channel_hop == Some(value));
                assert(allowed(line_cmd("wireless.rf.channelHop "@ + dec_repr(if settings.wireless_rf_channel_hop.unwrap() { 1nat } else { 0nat }))));
                assert(write_order_input(*settings)[9] == line_cmd("wireless.rf.channelHop "@ + dec_repr(if settings.wireless_rf_channel_hop.unwrap() { 1nat } else { 0nat })));
                lemma_step(*old(self), prev9, *self, line_cmd("wireless.rf.channelHop "@ + dec_repr(if settings.wireless_rf_channel_hop.unwrap() { 1nat } else { 0nat })), allowed, issued, write_order_input(*settings), 9);
                if r9 is Ok {
                    issued = issued.push(line_cmd("wireless.rf.channelHop "@ + dec_repr(if settings.wireless_rf_channel_hop.unwrap() { 1nat } else { 0nat })));
                }
            }
            match r9 {
                Ok(()) => {},
                Err(e) => {
                    proof {
                    lemma_subseq_of_take(
                        self.writes().skip(old(self).writes().len() as int),
                        write_order_input(*settings),
                        10,
                    );
                }
                return Err(e);
                },
            }
        } else {
            proof {
                lemma_subseq_extend(
                    self.writes().skip(old(self).writes().len() as int),
                    write_order_input(*settings).take(9),
                    write_order_input(*settings)[9],
                );
                assert(write_order_input(*settings).take(10) =~= write_order_input(
                    *settings,
                ).take(9).push(write_order_input(*settings)[9]));
            }
        }
        proof {
            assert(issued =~= write_issued_input(*settings));
            assert(write_order_input(*settings).take(10) =~= write_order_input(*settings));
        }
        Ok(())
    }

    /// Writes a whole snapshot to the device, one command per mandatory
    /// field and one per optional field that is present, in a fixed order.
    /// A failure aborts the remaining writes, leaving earlier fields
    /// applied: the transaction is not atomic. The ledger's growth is an
    /// in-order selection from the fixed command list, drawn from the
    /// transaction's vocabulary alone; a successful write has issued every
    /// command the snapshot owes, which also means every client-enforced
    /// limit held.
    #[verifier::rlimit(100)]
    pub fn settings_set(&mut self, settings: &Settings) -> (r: Result<(), FocusError>)
        ensures
            extended_only_by(
                *old(self),
                *final(self),
                |c: Seq<u8>| is_settings_write_cmd(*settings, c),
            ),
            is_subsequence_of(
                final(self).writes().skip(old(self).writes().len() as int),
                settings_write_cmd_list(*settings),
            ),
            r is Ok ==> issued_all(*old(self), *final(self), settings_write_issued_cmds(*settings))
                && settings_within_limits(*settings),
    {
        let ghost allowed = |c: Seq<u8>| is_settings_write_cmd(*settings, c);
        let ghost s0 = *old(self);
        let r1 = self.settings_set_keys(settings);
        let ghost s1 = *self;
        match r1 {
            Ok(()) => {},
            Err(e) => {
                proof {
                    lemma_subseq_append(
                        self.writes().skip(s0.writes().len() as int),
                        write_order_keys(*settings),
                        write_order_leds(*settings) + write_order_maps(*settings)
                            + write_order_input(*settings),
                    );
                    lemma_write_list_splits(*settings);
                }
                return Err(e);
            },
        }
        let r2 = self.settings_set_leds(settings);
        let ghost s2 = *self;
        proof {
            lemma_extended_trans(s0, s1, *self, allowed);
            lemma_suffix_concat(s0, s1, *self);
            lemma_subseq_concat(
                s1.writes().skip(s0.writes().len() as int),
                write_order_keys(*settings),
                self.writes().skip(s1.writes().len() as int),
                write_order_leds(*settings),
            );
        }
        match r2 {
            Ok(()) => {},
            Err(e) => {
                proof {
                    lemma_subseq_append(
                        self.writes().skip(s0.writes().len() as int),
                        write_order_keys(*settings) + write_order_leds(*settings),
                        write_order_maps(*settings) + write_order_input(*settings),
                    );
                    lemma_write_list_splits(*settings);
                }
                return Err(e);
            },
        }
        let r3 = self.settings_set_maps(settings);
        let ghost s3 = *self;
        proof {
            lemma_extended_trans(s0, s2, *self, allowed);
            lemma_suffix_concat(s0, s2, *self);
            lemma_subseq_concat(
                s2.writes().skip(s0.writes().len() as int),
                write_order_keys(*settings) + write_order_leds(*settings),
                self.writes().skip(s2.writes().len() as int),
                write_order_maps(*settings),
            );
        }
        match r3 {
            Ok(()) => {},
            Err(e) => {
                proof {
                    lemma_subseq_append(
                        self.writes().skip(s0.writes().len() as int),
                        write_order_keys(*settings) + write_order_leds(*settings)
                            + write_order_maps(*settings),
                        write_order_input(*settings),
                    );
                    lemma_write_list_splits(*settings);
                }
                return Err(e);
            },
        }
        let r4 = self.settings_set_input(settings);
        proof {
            lemma_extended_trans(s0, s3, *self, allowed);
            lemma_suffix_concat(s0, s3, *self);
            lemma_subseq_concat(
                s3.writes().skip(s0.writes().len() as int),
                write_order_keys(*settings) + write_order_leds(*settings) + write_order_maps(
                    *settings,
                ),
                self.writes().skip(s3.writes().len() as int),
                write_order_input(*settings),
            );
            lemma_write_list_splits(*settings);
        }
        match r4 {
            Ok(()) => {},
            Err(e) => {
                return Err(e);
            },
        }
        proof {
            lemma_issued_concat(
                s0,
                s1,
                s2,
                write_issued_keys(*settings),
                write_issued_leds(*settings),
            );
            lemma_issued_concat(
                s0,
                s2,
                s3,
                write_issued_keys(*settings) + write_issued_leds(*settings),
                write_issued_maps(*settings),
            );
            lemma_issued_concat(
                s0,
                s3,
                *self,
                write_issued_keys(*settings) + write_issued_leds(*settings) + write_issued_maps(
                    *settings,
                ),
                write_issued_input(*settings),
            );
        }
        Ok(())
    }
}

} // verus!
