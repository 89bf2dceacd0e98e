use netplay_core::netplay_packets::{NetplayBufferItem, NetplaySignal};
use netplay_core::player_input_buffer::PlayerInputBuffer;
use netplay_core::structures::Input;

fn frame(pressed: Vec<Input>) -> NetplayBufferItem {
    NetplayBufferItem { pressed, signals: Vec::new() }
}

fn empty_frame() -> NetplayBufferItem {
    NetplayBufferItem { pressed: Vec::new(), signals: Vec::new() }
}

#[test]
fn len_counts_every_push() {
    let mut buffer = PlayerInputBuffer::new_with_delay(2);
    assert_eq!(buffer.len(), 2);
    // Five pushes, three of which compress into existing runs.
    buffer.push_last(frame(vec![Input::Shoot]));
    buffer.push_last(frame(vec![Input::Shoot]));
    buffer.push_last(frame(vec![Input::Shoot]));
    buffer.push_last(frame(vec![Input::DpadLeft]));
    buffer.push_last(frame(vec![Input::DpadLeft]));
    assert_eq!(buffer.len(), 7);
    assert!(!buffer.is_empty());
}

#[test]
fn pops_return_frames_in_push_order() {
    let mut buffer = PlayerInputBuffer::new_with_delay(2);
    let pushed = vec![
        frame(vec![Input::Shoot]),
        frame(vec![Input::Shoot]),
        frame(vec![Input::DpadUp, Input::Shoot]),
        frame(vec![]),
        frame(vec![Input::UseCard]),
    ];
    for f in &pushed {
        buffer.push_last(f.clone());
    }
    // The two seeded delay frames come out first.
    assert_eq!(buffer.pop_next().unwrap(), empty_frame());
    assert_eq!(buffer.pop_next().unwrap(), empty_frame());
    for f in &pushed {
        assert_eq!(&buffer.pop_next().unwrap(), f);
    }
    assert!(buffer.is_empty());
    assert_eq!(buffer.pop_next(), None);
}

#[test]
fn push_then_delete_is_identity() {
    let mut buffer = PlayerInputBuffer::new_with_delay(1);
    buffer.push_last(frame(vec![Input::Confirm]));
    buffer.push_last(frame(vec![Input::Confirm]));
    let before = buffer.clone();
    // A frame equal to the tail run's (merges), then its retraction.
    buffer.push_last(frame(vec![Input::Confirm]));
    buffer.delete_last();
    assert_eq!(buffer.len(), before.len());
    // A frame unequal to the tail run's (new run), then its retraction.
    buffer.push_last(frame(vec![Input::Cancel]));
    buffer.delete_last();
    assert_eq!(buffer.len(), before.len());
    let mut before = before;
    while let Some(expected) = before.pop_next() {
        assert_eq!(buffer.pop_next().unwrap(), expected);
    }
    assert!(buffer.is_empty());
}

#[test]
fn get_agrees_with_popping_then_peeking() {
    let mut buffer = PlayerInputBuffer::new_with_delay(2);
    buffer.push_last(frame(vec![Input::Shoot]));
    buffer.push_last(frame(vec![Input::Shoot]));
    buffer.push_last(frame(vec![Input::DpadDown]));
    let len = buffer.len();
    for i in 0..len {
        let via_get = buffer.get(i).unwrap().clone();
        let mut popped = buffer.clone();
        for _ in 0..i {
            popped.pop_next().unwrap();
        }
        assert_eq!(popped.peek_next().unwrap(), &via_get);
    }
    assert!(buffer.get(len).is_none());
}

#[test]
fn equal_frames_compress_into_one_run() {
    // Order-independent equality: the same input set, listed in two orders.
    let first = frame(vec![Input::DpadUp, Input::Shoot]);
    let second = frame(vec![Input::Shoot, Input::DpadUp]);
    assert_eq!(first, second);

    let mut buffer = PlayerInputBuffer::new_with_delay(1);
    buffer.push_last(first);
    buffer.push_last(second);
    assert_eq!(buffer.len(), 3);
    buffer.pop_next().unwrap();
    // Both logical frames come from the single merged run, which stores the
    // first pushed representation: were there two runs, the second pop would
    // return the reordered vector.
    assert_eq!(buffer.pop_next().unwrap().pressed, vec![Input::DpadUp, Input::Shoot]);
    assert_eq!(buffer.pop_next().unwrap().pressed, vec![Input::DpadUp, Input::Shoot]);
}

#[test]
fn delay_frames_precede_the_first_real_frame() {
    let mut buffer = PlayerInputBuffer::new_with_delay(3);
    assert_eq!(buffer.len(), 3);
    buffer.push_last(frame(vec![Input::Special]));
    assert_eq!(buffer.len(), 4);
    assert_eq!(buffer.pop_next().unwrap(), empty_frame());
    assert_eq!(buffer.pop_next().unwrap(), empty_frame());
    assert_eq!(buffer.pop_next().unwrap(), empty_frame());
    assert_eq!(buffer.pop_next().unwrap(), frame(vec![Input::Special]));
}

#[test]
fn delete_last_on_empty_is_a_no_op() {
    let mut buffer = PlayerInputBuffer::new_with_delay(0);
    assert!(buffer.is_empty());
    buffer.delete_last();
    assert_eq!(buffer.len(), 0);
    assert_eq!(buffer.pop_next(), None);
    assert!(buffer.peek_next().is_none());
}

#[test]
fn delete_last_drops_an_exhausted_run() {
    let mut buffer = PlayerInputBuffer::new_with_delay(1);
    buffer.push_last(frame(vec![Input::Pause]));
    buffer.delete_last();
    buffer.delete_last();
    assert!(buffer.is_empty());
    assert_eq!(buffer.pop_next(), None);
}

#[test]
fn clear_empties_the_buffer() {
    let mut buffer = PlayerInputBuffer::new_with_delay(4);
    buffer.push_last(frame(vec![Input::Confirm]));
    buffer.clear();
    assert!(buffer.is_empty());
    assert_eq!(buffer.len(), 0);
    assert!(buffer.peek_next().is_none());
    assert!(buffer.get(0).is_none());
}

#[test]
fn peek_does_not_consume() {
    let mut buffer = PlayerInputBuffer::new_with_delay(0);
    buffer.push_last(frame(vec![Input::Cancel]));
    assert_eq!(buffer.peek_next().unwrap(), &frame(vec![Input::Cancel]));
    assert_eq!(buffer.len(), 1);
    assert_eq!(buffer.pop_next().unwrap(), frame(vec![Input::Cancel]));
}

#[test]
fn default_buffer_holds_five_delay_frames() {
    let mut buffer = PlayerInputBuffer::default();
    assert_eq!(buffer.len(), 5);
    for _ in 0..5 {
        assert_eq!(buffer.pop_next().unwrap(), empty_frame());
    }
    assert!(buffer.is_empty());
}

#[test]
fn signal_sets_count_in_frame_equality() {
    let with_signal = NetplayBufferItem {
        pressed: Vec::new(),
        signals: vec![NetplaySignal::AttemptingFlee],
    };
    assert_ne!(with_signal, empty_frame());
    let mut buffer = PlayerInputBuffer::new_with_delay(0);
    buffer.push_last(empty_frame());
    buffer.push_last(with_signal.clone());
    assert_eq!(buffer.len(), 2);
    assert_eq!(buffer.pop_next().unwrap(), empty_frame());
    assert_eq!(buffer.pop_next().unwrap(), with_signal);
}

#[test]
fn get_walks_runs_to_the_right_frame() {
    let mut buffer = PlayerInputBuffer::new_with_delay(2);
    buffer.push_last(frame(vec![Input::Shoot]));
    buffer.push_last(frame(vec![Input::Shoot]));
    buffer.push_last(frame(vec![Input::UseCard]));
    assert_eq!(buffer.get(0).unwrap(), &empty_frame());
    assert_eq!(buffer.get(1).unwrap(), &empty_frame());
    assert_eq!(buffer.get(2).unwrap(), &frame(vec![Input::Shoot]));
    assert_eq!(buffer.get(3).unwrap(), &frame(vec![Input::Shoot]));
    assert_eq!(buffer.get(4).unwrap(), &frame(vec![Input::UseCard]));
    assert!(buffer.get(5).is_none());
}
