use ecs_x::ecs::event::{update_event_resources, EventReader, EventWriter};

#[test]
fn written_events_are_delivered_in_order_at_the_update() {
    let mut reader: EventReader<i32> = EventReader::new();
    let mut writer: EventWriter<i32> = EventWriter::new();
    writer.write(1);
    writer.write(2);
    assert!(reader.read(usize::MAX).is_empty());
    update_event_resources(&mut reader, &mut writer);
    let got: Vec<i32> = reader.read(usize::MAX).into_iter().copied().collect();
    assert_eq!(got, vec![1, 2]);
}

#[test]
fn read_events_are_dropped_at_the_next_update() {
    let mut reader: EventReader<i32> = EventReader::new();
    let mut writer: EventWriter<i32> = EventWriter::new();
    writer.write(1);
    update_event_resources(&mut reader, &mut writer);
    assert_eq!(reader.read(usize::MAX).len(), 1);
    writer.write(2);
    update_event_resources(&mut reader, &mut writer);
    let got: Vec<i32> = reader.read(usize::MAX).into_iter().copied().collect();
    assert_eq!(got, vec![2]);
}

#[test]
fn unread_events_survive_updates() {
    let mut reader: EventReader<i32> = EventReader::new();
    let mut writer: EventWriter<i32> = EventWriter::new();
    writer.write(7);
    update_event_resources(&mut reader, &mut writer);
    writer.write(8);
    update_event_resources(&mut reader, &mut writer);
    update_event_resources(&mut reader, &mut writer);
    let got: Vec<i32> = reader.read(usize::MAX).into_iter().copied().collect();
    assert_eq!(got, vec![7, 8]);
    update_event_resources(&mut reader, &mut writer);
    assert!(reader.read(usize::MAX).is_empty());
}

#[test]
fn reading_twice_gives_the_same_events() {
    let mut reader: EventReader<&str> = EventReader::new();
    let mut writer: EventWriter<&str> = EventWriter::new();
    writer.write("a");
    update_event_resources(&mut reader, &mut writer);
    assert_eq!(reader.read(usize::MAX), vec![&"a"]);
    assert_eq!(reader.read(usize::MAX), vec![&"a"]);
}

#[test]
fn only_events_handed_out_are_marked_read() {
    let mut reader: EventReader<i32> = EventReader::new();
    let mut writer: EventWriter<i32> = EventWriter::new();
    writer.write(1);
    writer.write(2);
    writer.write(3);
    update_event_resources(&mut reader, &mut writer);
    assert_eq!(reader.read(2), vec![&1, &2]);
    update_event_resources(&mut reader, &mut writer);
    let got: Vec<i32> = reader.read(usize::MAX).into_iter().copied().collect();
    assert_eq!(got, vec![3]);
    assert_eq!(reader.read(0).len(), 0);
}
