use std::collections::HashMap;
use mcu_module::pins::PinFunction;
use mcu_module::pwm::{free_pads_for, free_pwm_channels, is_advanced_timer, pwm_channel_choices, pwm_plain_channel};
use std::collections::BTreeSet;

/// A chip whose pins can serve `channels` of `timer`, one pad each, plus a
/// decoy pad on another timer.
fn chip(timer: u8, channels: &[u8]) -> HashMap<usize, Vec<PinFunction>> {
    let mut out: HashMap<usize, Vec<PinFunction>> = HashMap::new();
    for (i, ch) in channels.iter().enumerate() {
        out.insert(i, vec![PinFunction::TimerPwm { timer, channel: *ch }]);
    }
    out.insert(99, vec![PinFunction::TimerPwm { timer: timer + 1, channel: 4 }]);
    out
}

fn chip_with_comp(timer: u8, channels: &[u8], comp: &[u8]) -> HashMap<usize, Vec<PinFunction>> {
    let mut out = chip(timer, channels);
    for (i, ch) in comp.iter().enumerate() {
        out.insert(1000 + i, vec![PinFunction::TimerPwmN { timer, channel: *ch }]);
    }
    out
}

fn wired(labels: &[&str]) -> Vec<String> {
    labels.iter().map(|s| (*s).to_owned()).collect()
}

#[test]
fn only_a_plain_channel_row_becomes_a_picker() {
    assert_eq!(pwm_plain_channel("CH0"), Some(0));
    assert_eq!(pwm_plain_channel("CH7"), Some(7));
    assert_eq!(pwm_plain_channel("CH3N"), None);
    assert_eq!(pwm_plain_channel("BKIN"), None);
    assert_eq!(pwm_plain_channel("TX"), None);
}

#[test]
fn a_channel_number_parses_as_a_byte_does() {
    assert_eq!(pwm_plain_channel("CH255"), Some(255));
    assert_eq!(pwm_plain_channel("CH256"), None);
    assert_eq!(pwm_plain_channel("CH+3"), Some(3));
    assert_eq!(pwm_plain_channel("CH"), None);
    assert_eq!(pwm_plain_channel("CH007"), Some(7));
    assert_eq!(pwm_plain_channel("ch1"), None);
}

#[test]
fn a_pad_is_offered_only_the_channels_it_can_reach() {
    let funcs: HashMap<usize, Vec<PinFunction>> = [
        (10, (0u8..6).map(|channel| PinFunction::TimerPwm { timer: 0, channel }).collect()),
        (
            20,
            vec![
                PinFunction::TimerPwm { timer: 3, channel: 2 },
                PinFunction::TimerPwm { timer: 4, channel: 1 },
            ],
        ),
    ].into_iter().collect();
    let none = BTreeSet::new();
    assert_eq!(pwm_channel_choices(0, 10, &funcs, &none), vec![0, 1, 2, 3, 4, 5]);
    assert_eq!(pwm_channel_choices(3, 20, &funcs, &none), vec![2]);
    assert!(pwm_channel_choices(7, 20, &funcs, &none).is_empty());
    let taken: BTreeSet<u8> = [0u8, 1, 5].into_iter().collect();
    assert_eq!(pwm_channel_choices(0, 10, &funcs, &taken), vec![2, 3, 4]);
}

#[test]
fn channel_choices_come_sorted_and_once() {
    let funcs: HashMap<usize, Vec<PinFunction>> = [(
        5,
        vec![
            PinFunction::TimerPwm { timer: 2, channel: 4 },
            PinFunction::TimerPwm { timer: 2, channel: 1 },
            PinFunction::TimerPwm { timer: 2, channel: 4 },
        ],
    )].into_iter().collect();
    assert_eq!(pwm_channel_choices(2, 5, &funcs, &BTreeSet::new()), vec![1, 4]);
    assert!(pwm_channel_choices(2, 6, &funcs, &BTreeSet::new()).is_empty());
}

#[test]
fn free_channels_are_what_the_chip_has_minus_what_is_wired() {
    let four = chip(2, &[1, 2, 3, 4]);
    assert_eq!(free_pwm_channels(2, &wired(&["CH1"]), &four), ["CH2", "CH3", "CH4"]);
    assert_eq!(free_pwm_channels(2, &wired(&["CH2"]), &four), ["CH1", "CH3", "CH4"]);
}

#[test]
fn a_fully_wired_timer_has_no_free_channel() {
    let four = chip(2, &[1, 2, 3, 4]);
    assert!(free_pwm_channels(2, &wired(&["CH1", "CH2", "CH3", "CH4"]), &four).is_empty());
}

#[test]
fn a_one_channel_timer_never_offers_channels_it_lacks() {
    let tim14 = chip(14, &[1]);
    assert!(free_pwm_channels(14, &wired(&["CH1"]), &tim14).is_empty());
    assert_eq!(free_pwm_channels(14, &Vec::new(), &tim14), ["CH1"]);
}

#[test]
fn other_timers_do_not_leak_into_the_hint() {
    let tim2 = chip(2, &[1]);
    assert_eq!(free_pwm_channels(2, &Vec::new(), &tim2), ["CH1"]);
    assert_eq!(free_pwm_channels(3, &Vec::new(), &tim2), ["CH4"]);
}

#[test]
fn complementary_pads_are_offered_on_an_advanced_timer() {
    let tim1 = chip_with_comp(1, &[1, 2], &[1, 2]);
    assert_eq!(free_pwm_channels(1, &wired(&["CH1"]), &tim1), ["CH1N", "CH2", "CH2N"]);
    assert_eq!(
        free_pwm_channels(1, &wired(&["CH1", "CH1N", "CH2", "CH2N"]), &tim1),
        Vec::<String>::new(),
    );
}

#[test]
fn complementary_pads_are_not_offered_where_embassy_cannot_drive_them() {
    let tim16 = chip_with_comp(16, &[1], &[1]);
    assert_eq!(free_pwm_channels(16, &Vec::new(), &tim16), ["CH1"]);
    assert!(is_advanced_timer(1) && is_advanced_timer(8) && is_advanced_timer(20));
    assert!(!is_advanced_timer(16) && !is_advanced_timer(2));
}

#[test]
fn break_inputs_and_two_digit_channels_sort_as_text() {
    let table: HashMap<usize, Vec<PinFunction>> = [
        (1, vec![PinFunction::TimerPwm { timer: 1, channel: 10 }]),
        (2, vec![PinFunction::TimerPwm { timer: 1, channel: 2 }]),
        (3, vec![PinFunction::TimerBreak { timer: 1, input: 0 }]),
        (4, vec![PinFunction::TimerBreak { timer: 1, input: 2 }]),
    ].into_iter().collect();
    let got = free_pwm_channels(1, &Vec::new(), &table);
    assert_eq!(got.len(), 4);
    let mut sorted = got.clone();
    sorted.sort();
    assert_eq!(got, sorted);
    assert!(got.contains(&"CH10".to_owned()) && got.contains(&"CH2".to_owned()));
}

#[test]
fn a_free_pad_is_one_that_can_carry_the_signal_and_carries_nothing() {
    let want = PinFunction::UsartTx(1);
    let table: HashMap<usize, Vec<PinFunction>> = [
        (9, vec![want]),
        (3, vec![want, PinFunction::GpioOutput]),
        (4, vec![want]),
        (5, vec![PinFunction::UsartRx(1)]),
        (7, vec![want]),
    ].into_iter().collect();
    let current: HashMap<usize, PinFunction> = [
        (9, PinFunction::Unset),
        (3, PinFunction::Unset),
        (4, PinFunction::GpioOutput),
        (5, PinFunction::Unset),
        (7, want),
    ].into_iter().collect();
    assert_eq!(free_pads_for(&want, 7, &table, &current, "esp32c3", 2), vec![3, 9]);
    // A pad missing from the current table is free.
    let sparse: HashMap<usize, PinFunction> = [(4, PinFunction::GpioOutput)].into_iter().collect();
    assert_eq!(free_pads_for(&want, 7, &table, &sparse, "rp2040", 2), vec![3, 9]);
}

#[test]
fn an_f1_bus_moves_as_a_group_but_a_single_pad_does_not() {
    let want = PinFunction::UsartTx(1);
    let table: HashMap<usize, Vec<PinFunction>> = [(3, vec![want]), (4, vec![want])].into_iter().collect();
    let current: HashMap<usize, PinFunction> = HashMap::new();
    assert!(free_pads_for(&want, 3, &table, &current, "stm32f1", 2).is_empty());
    assert_eq!(free_pads_for(&want, 3, &table, &current, "stm32f1", 1), vec![4]);
}
