use yassy::lv2_plugin::{midi_events, port_target, PortTarget};
use yassy::oscillator::{OscBLIT, PhaseAccumulator, M, N};
use yassy::ui::{get_offset, UiState};

#[test]
fn half_rate_takes_two_steps_per_cycle() {
    assert_eq!(N as i32, i32::MIN);
    assert_eq!((N as i32) as i64, -(N as i64));
    let mut pa = PhaseAccumulator::new();
    assert_eq!(pa.a(), 0);
    // f0 = fs/2 is an increment of N
    pa.reset_increment(N as i32);
    assert_eq!(pa.a() as i64, -(N as i64));
    let mut a = pa.get_a();
    assert_eq!(a, 0i32);
    a = pa.get_a();
    assert_eq!(a as i64, -(N as i64));
    assert_eq!(pa.shiftn(), 0i32);
}

#[test]
fn the_index_wraps_around_the_segment() {
    let mut pa = PhaseAccumulator::new();
    pa.reset_increment(0x4000_0000);
    assert_eq!(pa.get_a(), -0x4000_0000);
    assert_eq!(pa.get_a(), 0);
    assert_eq!(pa.get_a(), 0x4000_0000);
    assert_eq!(pa.get_a(), i32::MIN);
    assert_eq!(pa.shiftn(), 0);
    pa.step();
    assert_eq!(pa.a(), -0x4000_0000);
    assert_eq!(pa.shiftn(), 0x4000_0000);
}

#[test]
fn blit_phase_folds_without_overflow() {
    let mut o = OscBLIT::new();
    assert_eq!(o.m as usize, M);
    assert_eq!(M, 5399);
    assert!(o.use_blit && o.use_postfilter);
    o.reset_increment(0x4000_0000);
    assert_eq!(o.b, 0);
    o.step_ab();
    assert_eq!(o.pa.a(), -0x4000_0000);
    assert_eq!(o.abs_a, 0x4000_0000 - 1);
    assert_eq!(o.b, 0x4000_0000);
    o.step_ab();
    assert_eq!(o.pa.a(), 0);
    assert_eq!(o.abs_a, 0);
    o.step_ab();
    o.step_ab();
    assert_eq!(o.pa.a(), i32::MIN);
    assert_eq!(o.abs_a, i32::MAX);
    assert_eq!(o.b, 0);
    o.alpha = 10;
    assert!(!o.in_impulse());
    o.step_ab();
    o.step_ab();
    assert_eq!(o.abs_a, 0);
    assert!(o.in_impulse());
    o.alpha = 0x9000_0000;
    assert!(!o.in_impulse());
}

#[test]
fn ports_connect_to_their_buffers() {
    assert_eq!(port_target(0, 5), Some(PortTarget::InPort));
    assert_eq!(port_target(1, 5), Some(PortTarget::Output));
    assert_eq!(port_target(2, 5), Some(PortTarget::InPortTime));
    assert_eq!(port_target(3, 5), Some(PortTarget::Param(0)));
    assert_eq!(port_target(7, 5), Some(PortTarget::Param(4)));
    assert_eq!(port_target(8, 5), None);
    assert_eq!(port_target(3, 0), None);
}

#[test]
fn the_interface_shows_and_hides() {
    let mut ui = UiState::new();
    assert_eq!(ui.idle_result(), 1);
    assert_eq!(ui.ui_show(), 0);
    assert!(ui.showing);
    assert_eq!(ui.idle_result(), 0);
    assert_eq!(ui.ui_show(), 0);
    assert!(ui.showing);
    assert_eq!(ui.ui_hide(), 0);
    assert_eq!(ui.idle_result(), 1);
    assert_eq!(get_offset(), 0);
}

fn event(time: i64, ty: u32, body: &[u8]) -> Vec<u8> {
    let mut v = Vec::new();
    v.extend_from_slice(&time.to_le_bytes());
    v.extend_from_slice(&(body.len() as u32).to_le_bytes());
    v.extend_from_slice(&ty.to_le_bytes());
    v.extend_from_slice(body);
    while v.len() % 8 != 0 {
        v.push(0);
    }
    v
}

#[test]
fn midi_events_are_read_from_an_atom_sequence() {
    let midi = 17u32;
    let mut seq = vec![0u8; 8];
    seq.extend(event(3, midi, &[0x90, 60, 100]));
    seq.extend(event(5, 99, &[1, 2, 3, 4, 5, 6, 7, 8, 9]));
    seq.extend(event(7, midi, &[0x80, 60]));
    seq.extend(event(0x1_0000_0009, midi, &[0x80, 60, 0]));
    assert_eq!(
        midi_events(&seq, midi),
        vec![(3, [0x90, 60, 100]), (7, [0x80, 60, 0]), (9, [0x80, 60, 0])]
    );
    // an event cut short ends the reading
    let mut cut = vec![0u8; 8];
    cut.extend(event(1, midi, &[0x90, 61, 1]));
    let mut tail = event(2, midi, &[0x90, 62, 1]);
    tail.truncate(18);
    cut.extend(tail);
    assert_eq!(midi_events(&cut, midi), vec![(1, [0x90, 61, 1])]);
    assert_eq!(midi_events(&[0u8; 4], midi), vec![]);
}

#[test]
fn a_short_midi_event_brings_the_bytes_after_it() {
    let midi = 17u32;
    let mut seq = vec![0u8; 8];
    let mut ev = event(4, midi, &[0xc0, 5]);
    ev[18] = 0xaa;
    seq.extend(ev);
    assert_eq!(midi_events(&seq, midi), vec![(4, [0xc0, 5, 0xaa])]);
    // without the padding the third byte lies past the end
    let mut last = vec![0u8; 8];
    let mut ev = event(4, midi, &[0xc0, 5]);
    ev.truncate(18);
    last.extend(ev);
    assert_eq!(midi_events(&last, midi), vec![]);
}

#[test]
fn k_steps_add_k_increments_modulo_the_segment() {
    let mut pa = PhaseAccumulator::new();
    let da: i32 = 1_000_000_007;
    pa.reset_increment(da);
    let mut expected = i32::MIN;
    for _ in 0..20 {
        expected = expected.wrapping_add(da);
        assert_eq!(pa.get_a(), expected);
    }
    assert_eq!(pa.a(), i32::MIN.wrapping_add(da.wrapping_mul(20)));
}
