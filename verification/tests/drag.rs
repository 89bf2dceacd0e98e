use netplay_core::drag::{Direction, Drag, DragRecord};

#[test]
fn decoding_defaults_absent_fields() {
    let record = DragRecord { direction: None, distance: None };
    assert_eq!(Drag::from_record(&record), Drag::default());

    let record = DragRecord { direction: Some(Direction::UpLeft), distance: None };
    assert_eq!(
        Drag::from_record(&record),
        Drag { direction: Direction::UpLeft, distance: 0 }
    );

    let record = DragRecord { direction: None, distance: Some(12) };
    assert_eq!(
        Drag::from_record(&record),
        Drag { direction: Direction::Neutral, distance: 12 }
    );
}

#[test]
fn encoding_then_decoding_round_trips() {
    let drag = Drag { direction: Direction::DownRight, distance: 40 };
    assert_eq!(Drag::from_record(&drag.to_record()), drag);
    let drag = Drag::default();
    assert_eq!(Drag::from_record(&drag.to_record()), drag);
}

#[test]
fn encoding_fills_every_field() {
    let drag = Drag { direction: Direction::Left, distance: 7 };
    let record = drag.to_record();
    assert_eq!(record.direction, Some(Direction::Left));
    assert_eq!(record.distance, Some(7));
}
