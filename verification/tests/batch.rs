use evdevil::batch::{BatchReader, BatchWriter, Logged, BATCH_WRITE_SIZE};
use evdevil::event::{InputEvent, Rel, Syn, SYN_DROPPED, SYN_REPORT};
use std::io;

fn rel(value: i32) -> InputEvent {
    InputEvent::rel(Rel { raw: 7 }, value)
}

fn syn(raw: u16) -> InputEvent {
    InputEvent::syn(Syn { raw })
}

#[test]
fn batch_writer() -> io::Result<()> {
    let mut w = BatchWriter::new();
    w.write_to(
        &[InputEvent::zeroed(); BATCH_WRITE_SIZE - 1],
        &mut Logged::new(|_: &[InputEvent]| -> io::Result<()> {
            unreachable!("shouldn't write them yet")
        }),
    )?;
    w.write_to(
        &[InputEvent::zeroed(); 1],
        &mut Logged::new(|_: &[InputEvent]| -> io::Result<()> {
            unreachable!("shouldn't write them yet")
        }),
    )?;

    let mut wrote = Vec::new();
    w.write_to(
        &[InputEvent::zeroed()],
        &mut Logged::new(|ev: &[InputEvent]| -> io::Result<()> {
            wrote.push(ev.len());
            Ok(())
        }),
    )?;
    assert_eq!(wrote, &[BATCH_WRITE_SIZE], "should have written events");
    assert_eq!(w.bufpos(), 1, "should have 1 event in the buffer");

    // Doesn't fit in the buffer, so it will be written directly.
    let mut wrote = Vec::new();
    w.write_to(
        &[InputEvent::zeroed(); BATCH_WRITE_SIZE + 1],
        &mut Logged::new(|ev: &[InputEvent]| -> io::Result<()> {
            wrote.push(ev.len());
            Ok(())
        }),
    )?;
    assert_eq!(wrote, &[1, BATCH_WRITE_SIZE + 1]);
    assert_eq!(w.bufpos(), 0);

    // Equal to the buffer size, so it will be written directly.
    let mut wrote = Vec::new();
    w.write_to(
        &[InputEvent::zeroed(); BATCH_WRITE_SIZE],
        &mut Logged::new(|ev: &[InputEvent]| -> io::Result<()> {
            wrote.push(ev.len());
            Ok(())
        }),
    )?;
    assert_eq!(wrote, &[BATCH_WRITE_SIZE]);
    assert_eq!(w.bufpos(), 0);

    // If there's 1 event in the buffer, and we write a whole batch worth, flush the buffer,
    // then write the new events directly. Result is that the buffer is empty.
    w.write_to(
        &[InputEvent::zeroed(); 1],
        &mut Logged::new(|_: &[InputEvent]| -> io::Result<()> {
            unreachable!("shouldn't write them yet")
        }),
    )?;
    assert_eq!(w.bufpos(), 1);

    let mut wrote = Vec::new();
    w.write_to(
        &[InputEvent::zeroed(); BATCH_WRITE_SIZE],
        &mut Logged::new(|ev: &[InputEvent]| -> io::Result<()> {
            wrote.push(ev.len());
            Ok(())
        }),
    )?;
    assert_eq!(wrote, &[1, BATCH_WRITE_SIZE]);
    assert_eq!(w.bufpos(), 0);

    w.flush_to(&mut Logged::new(|_: &[InputEvent]| -> io::Result<()> {
        unreachable!("should not flush anything");
    }))?;

    Ok(())
}

#[test]
fn batches_are_written_in_order() {
    let mut writer = BatchWriter::new();
    let mut sent: Vec<InputEvent> = Vec::new();
    let mut wrote: Vec<InputEvent> = Vec::new();
    for len in [3usize, 8, 1, 0, 2, 12, 5, 30, 11, 1, 1] {
        let batch: Vec<InputEvent> = (0..len).map(|i| rel((sent.len() + i) as i32)).collect();
        sent.extend(&batch);
        let mut sink = Logged::new(|events: &[InputEvent]| -> Result<(), ()> {
            wrote.extend(events);
            Ok(())
        });
        assert_eq!(writer.write_to(&batch, &mut sink), Ok(()));
        assert_eq!(wrote.len() + writer.bufpos(), sent.len());
    }
    let mut sink = Logged::new(|events: &[InputEvent]| -> Result<(), ()> {
        wrote.extend(events);
        Ok(())
    });
    assert_eq!(writer.flush_to(&mut sink), Ok(()));
    assert_eq!(wrote, sent);
    assert_eq!(writer.bufpos(), 0);
}

#[test]
fn events_that_cannot_be_flushed_are_kept() {
    let mut writer = BatchWriter::new();
    let mut sink = Logged::new(|_: &[InputEvent]| -> Result<(), u8> { Err(2) });
    assert_eq!(writer.write_to(&[rel(1); 10], &mut sink), Ok(()));

    assert_eq!(writer.write_to(&[rel(2); 3], &mut sink), Err(2));
    assert_eq!(writer.waiting(), &[rel(1); 10]);

    assert_eq!(writer.flush_to(&mut sink), Err(2));
    assert_eq!(writer.waiting(), &[rel(1); 10]);
}

#[test]
fn failure_of_a_direct_write_is_returned() {
    let mut writer = BatchWriter::new();
    let mut calls = Vec::new();
    let mut sink = Logged::new(|events: &[InputEvent]| -> Result<(), u8> {
        calls.push(events.len());
        if events.len() == 12 {
            Err(4)
        } else {
            Ok(())
        }
    });
    assert_eq!(writer.write_to(&[rel(1)], &mut sink), Ok(()));
    assert_eq!(writer.write_to(&[rel(2); 12], &mut sink), Err(4));
    assert_eq!(writer.bufpos(), 0);
    assert_eq!(calls, [1, 12]);
}

#[test]
fn only_events_that_wait_are_printed() {
    let mut writer = BatchWriter::new();
    let mut sink = Logged::new(|_: &[InputEvent]| -> Result<(), u8> { Ok(()) });
    assert_eq!(writer.write_to(&[rel(1); 11], &mut sink), Ok(()));
    assert_eq!(writer.write_to(&[rel(2); 2], &mut sink), Ok(()));
    assert_eq!(
        format!("{writer:?}"),
        format!("BatchWriter {{ buffer: {:?} }}", [rel(2), rel(2)])
    );
    assert_eq!(writer.flush_to(&mut sink), Ok(()));
    assert_eq!(format!("{writer:?}"), "BatchWriter { buffer: [] }");
}

#[test]
fn nothing_is_written_after_a_failure() {
    let mut writer = BatchWriter::new();
    let mut calls = Vec::new();
    let mut sink = Logged::new(|events: &[InputEvent]| -> Result<(), u8> {
        calls.push(events.to_vec());
        if calls.len() == 1 {
            Err(2)
        } else {
            Ok(())
        }
    });
    assert_eq!(writer.write_to(&[rel(1)], &mut sink), Ok(()));
    assert_eq!(writer.write_to(&[rel(2); 12], &mut sink), Err(2));
    assert_eq!(writer.waiting(), &[rel(1)]);

    // The same events can be written later.
    assert_eq!(writer.flush_to(&mut sink), Ok(()));
    assert_eq!(writer.flush_to(&mut sink), Ok(()));
    assert_eq!(calls, [vec![rel(1)], vec![rel(1)]]);
}

#[test]
fn batch_reader_waits_for_the_end_of_a_batch() {
    let mut reader = BatchReader::new();
    assert_eq!(reader.fill(&[rel(1), syn(1)]), None);
    assert_eq!(reader.fill(&[rel(2)]), None);
    let batch = reader.fill(&[rel(3), syn(SYN_REPORT), rel(4)]);
    assert_eq!(batch, Some(vec![rel(1), syn(1), rel(2), rel(3), syn(SYN_REPORT)]));
    let batch = reader.fill(&[syn(SYN_DROPPED), rel(5)]);
    assert_eq!(batch, Some(vec![rel(4), syn(SYN_DROPPED)]));
    assert_eq!(reader.fill(&[rel(6)]), None);
    assert_eq!(reader.fill(&[syn(SYN_REPORT)]), Some(vec![rel(5), rel(6), syn(SYN_REPORT)]));
}

#[test]
fn batch_reader_keeps_further_batches() {
    let mut reader = BatchReader::new();
    let batch = reader.fill(&[rel(1), syn(SYN_REPORT), rel(2), syn(SYN_REPORT), rel(3)]);
    assert_eq!(batch, Some(vec![rel(1), syn(SYN_REPORT)]));
    let batch = reader.fill(&[rel(4), syn(SYN_REPORT)]);
    assert_eq!(
        batch,
        Some(vec![rel(2), syn(SYN_REPORT), rel(3), rel(4), syn(SYN_REPORT)])
    );
}
