use std::collections::HashMap;
use mcu_module::pins::PinFunction;
use mcu_module::rp::{rp_pwm_notes, RP_DMA_NOTE, RP_I2C_NOTE};

fn slice_one(pads: &[(usize, u8)]) -> (HashMap<usize, Vec<PinFunction>>, HashMap<usize, String>) {
    let mut funcs: HashMap<usize, Vec<PinFunction>> = HashMap::new();
    let mut names: HashMap<usize, String> = HashMap::new();
    for (num, channel) in pads {
        funcs.insert(*num, vec![PinFunction::TimerPwm { timer: 1, channel: *channel }]);
        names.insert(*num, format!("GP{num}"));
    }
    (funcs, names)
}

#[test]
fn an_rp_pwm_note_talks_about_pads_not_timers() {
    let (funcs, names) = slice_one(&[(2, 1), (18, 1), (3, 2), (19, 2)]);
    let conn: Vec<(&'static str, String, usize)> = vec![("CH1", "GP2".to_owned(), 2)];
    let notes = rp_pwm_notes(1, &conn, &[Some(2)], &funcs, &names);
    let all = notes.join("\n");
    assert!(!all.contains("TIM"), "{all}");
    assert!(all.contains("GP18"), "{all}");
    assert!(all.contains("channel B is free"), "{all}");
    assert!(all.contains("GP3") && all.contains("GP19"), "{all}");
    assert!(all.contains("not selectable"), "{all}");
}

#[test]
fn two_pads_on_one_channel_agree_with_what_the_generator_emits() {
    let (funcs, names) = slice_one(&[(2, 1), (18, 1), (3, 2), (19, 2)]);
    let conn: Vec<(&'static str, String, usize)> =
        vec![("CH1", "GP18".to_owned(), 18), ("CH1", "GP2".to_owned(), 2)];
    let all = rp_pwm_notes(1, &conn, &[Some(18), Some(2)], &funcs, &names).join("\n");
    assert!(all.contains("GP2 drives it"), "{all}");
    assert!(all.contains("GP18 is wired to slice 1 channel A as well"), "{all}");
    assert!(!all.contains("GP18 drives"), "{all}");
    assert!(!all.contains("and so can GP18"), "{all}");
}

#[test]
fn no_note_string_carries_a_run_of_spaces() {
    let (funcs, names) = slice_one(&[(2, 1), (18, 1), (3, 2)]);
    let conn: Vec<(&'static str, String, usize)> = vec![("CH1", "GP2".to_owned(), 2)];
    let mut all = rp_pwm_notes(1, &conn, &[Some(2)], &funcs, &names);
    all.push(RP_DMA_NOTE.to_owned());
    all.push(RP_I2C_NOTE.to_owned());
    for n in &all {
        assert!(!n.contains("  "), "{n:?}");
    }
}

#[test]
fn the_notes_read_exactly() {
    let (funcs, names) = slice_one(&[(2, 1), (18, 1), (3, 2), (19, 2)]);
    let conn: Vec<(&'static str, String, usize)> = vec![("CH1", "GP2".to_owned(), 2)];
    let notes = rp_pwm_notes(1, &conn, &[Some(2)], &funcs, &names);
    assert_eq!(notes.len(), 3);
    assert!(notes[0].starts_with("On this chip the pad decides the channel"));
    assert_eq!(
        notes[1],
        "GP2 drives slice 1 channel A - and so can GP18, if that pad suits the board better."
    );
    assert_eq!(
        notes[2],
        "Slice 1 channel B is free - wire GP3 / GP19 on the Pins canvas and it joins this module, sharing its frequency."
    );
}

#[test]
fn an_unnamed_pad_is_called_by_its_number() {
    let funcs: HashMap<usize, Vec<PinFunction>> = [
        (20, vec![PinFunction::TimerPwm { timer: 2, channel: 2 }]),
        (4, vec![PinFunction::TimerPwm { timer: 2, channel: 2 }]),
    ].into_iter().collect();
    let names: HashMap<usize, String> = [(4, "GP4".to_owned())].into_iter().collect();
    let notes = rp_pwm_notes(2, &[], &[], &funcs, &names);
    assert_eq!(notes.len(), 2);
    assert_eq!(
        notes[1],
        "Slice 2 channel B is free - wire GP4 / pin20 on the Pins canvas and it joins this module, sharing its frequency."
    );
}

#[test]
fn a_later_lower_gpio_takes_the_channel_over() {
    let (funcs, names) = slice_one(&[(2, 1), (18, 1)]);
    let conn: Vec<(&'static str, String, usize)> =
        vec![("CH1", "GP18".to_owned(), 18), ("CH1", "GP2".to_owned(), 2)];
    let notes = rp_pwm_notes(1, &conn, &[Some(18), Some(2)], &funcs, &names);
    assert_eq!(
        notes[1],
        "GP18 is wired to slice 1 channel A as well, but one channel reaches one pad - GP2 drives it and GP18 gets no code."
    );
    assert_eq!(notes.len(), 2);
}

#[test]
fn every_clash_line_names_the_pad_with_the_least_gpio() {
    let (funcs, names) = slice_one(&[(2, 1), (18, 1), (34, 1)]);
    let conn: Vec<(&'static str, String, usize)> = vec![
        ("CH1", "GP34".to_owned(), 34),
        ("CH1", "GP18".to_owned(), 18),
        ("CH1", "GP2".to_owned(), 2),
    ];
    let notes = rp_pwm_notes(1, &conn, &[Some(34), Some(18), Some(2)], &funcs, &names);
    assert_eq!(
        notes[1],
        "GP34 is wired to slice 1 channel A as well, but one channel reaches one pad - GP2 drives it and GP34 gets no code."
    );
    assert_eq!(
        notes[2],
        "GP18 is wired to slice 1 channel A as well, but one channel reaches one pad - GP2 drives it and GP18 gets no code."
    );
    assert_eq!(notes.len(), 3, "{notes:?}");
}

#[test]
fn clash_lines_come_in_the_order_the_clashes_are_found() {
    let (funcs, names) = slice_one(&[(2, 1), (18, 1), (3, 2), (19, 2)]);
    let conn: Vec<(&'static str, String, usize)> = vec![
        ("CH1", "GP2".to_owned(), 2),
        ("CH2", "GP19".to_owned(), 19),
        ("CH1", "GP18".to_owned(), 18),
        ("CH2", "GP3".to_owned(), 3),
    ];
    let notes = rp_pwm_notes(1, &conn, &[Some(2), Some(19), Some(18), Some(3)], &funcs, &names);
    assert!(notes[1].starts_with("GP18 is wired to slice 1 channel A as well"), "{notes:?}");
    assert!(notes[1].contains("GP2 drives it"), "{notes:?}");
    assert!(notes[2].starts_with("GP19 is wired to slice 1 channel B as well"), "{notes:?}");
    assert!(notes[2].contains("GP3 drives it"), "{notes:?}");
}
