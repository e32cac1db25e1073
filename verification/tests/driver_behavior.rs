//! Behaviour of the driver state machine: streaming and batch reads, the
//! open/close lifecycle, error recording, and taking the accumulated text.

use fileaccess::events::ErrorKind;
use fileaccess::events::OpenEvent;
use fileaccess::events::ReadEvent;
use fileaccess::events::SyncEvent;
use fileaccess::FileDriver;

#[test]
fn missing_file_yields_not_found_and_no_handle() {
    let mut d = FileDriver::from_path_name("no/such/file.txt");
    let opened = d.open_for_read(OpenEvent::NotFound);
    assert!(!opened);
    assert!(!d.is_open());
    assert!(!d.is_readable());
    assert_eq!(d.get_error_code(), 3);
    assert_eq!(d.get_error_kind(), Some(ErrorKind::NotFound));
    assert!(d.get_error_string().contains("The file does not exist."));
}

#[test]
fn open_failure_yields_code_one_and_no_handle() {
    let mut d = FileDriver::from_path_name("locked.txt");
    let opened = d.open_for_read(OpenEvent::OpenFailed(String::from("permission denied")));
    assert!(!opened);
    assert!(!d.is_open());
    assert_eq!(d.get_error_code(), 1);
    assert!(d.get_error_string().contains("Message: permission denied"));
}

#[test]
fn open_is_noop_when_already_open() {
    let mut d = FileDriver::from_path_name("data.txt");
    assert!(d.open_for_read(OpenEvent::Opened));
    // A second attempt reports success without touching the error state,
    // whatever event the caller would have produced.
    assert!(d.open_for_read(OpenEvent::NotFound));
    assert_eq!(d.get_error_code(), 0);
    assert!(d.is_readable());
}

#[test]
fn close_twice_is_noop_and_never_errors() {
    let mut d = FileDriver::from_path_name("data.txt");
    assert!(d.open_for_read(OpenEvent::Opened));
    assert!(d.close(SyncEvent::Synced));
    assert!(!d.is_open());
    assert!(d.close(SyncEvent::Synced));
    assert!(!d.is_open());
    assert_eq!(d.get_error_code(), 0);
}

#[test]
fn close_records_sync_failure_but_releases_handle() {
    let mut d = FileDriver::from_path_name("data.txt");
    assert!(d.open_for_read(OpenEvent::Opened));
    let ok = d.close(SyncEvent::SyncFailed(String::from("device gone")));
    assert!(!ok);
    assert!(!d.is_open());
    assert_eq!(d.get_error_kind(), Some(ErrorKind::SyncFailed));
    assert_eq!(d.get_error_code(), 1);
    // Closing again is still a clean no-op.
    assert!(d.close(SyncEvent::Synced));
}

#[test]
fn batch_read_of_large_ascii_file() {
    // A 70000-byte ASCII file with the default 32768-byte chunks arrives in
    // three physical reads of 32768, 32768 and 4464 bytes.
    let mut d = FileDriver::from_path_name("big.txt");
    d.set_chunk_size(32768);
    d.begin_batch();
    assert!(d.open_for_read(OpenEvent::Opened));
    d.start_batch_cycle();
    assert!(d.batch_chunk(ReadEvent::Data(vec![b'a'; 32768])));
    assert!(d.batch_chunk(ReadEvent::Data(vec![b'a'; 32768])));
    assert!(!d.batch_chunk(ReadEvent::Data(vec![b'a'; 4464])));
    assert!(d.finish_batch(SyncEvent::Synced));
    assert!(!d.is_open());
    assert_eq!(d.get_error_code(), 0);
    let text = d.take_content();
    assert_eq!(text.len(), 70000);
    assert!(text.bytes().all(|b| b == b'a'));
}

#[test]
fn split_character_repaired_across_chunks() {
    // A three-byte character split 2/1 across a chunk boundary: the first
    // read leaves a two-byte carry, the second read completes the character.
    let mut d = FileDriver::from_path_name("split.txt");
    d.set_persistent(true);
    assert!(d.open_for_read(OpenEvent::Opened));
    d.start_stream_cycle();
    assert!(d.stream_chunk(ReadEvent::Data(vec![b'a', 0xe2, 0x82])));
    assert_eq!(d.get_chunk(), "a");
    assert!(d.stream_chunk(ReadEvent::Data(vec![0xac, b'b'])));
    assert_eq!(d.get_chunk(), "\u{20ac}b");
    assert_eq!(d.get_error_code(), 0);
    assert!(d.close(SyncEvent::Synced));
}

#[test]
fn split_character_repaired_in_batch() {
    let mut d = FileDriver::from_path_name("split.txt");
    d.set_chunk_size(3);
    d.begin_batch();
    assert!(d.open_for_read(OpenEvent::Opened));
    d.start_batch_cycle();
    assert!(d.batch_chunk(ReadEvent::Data(vec![b'a', 0xe2, 0x82])));
    assert!(!d.batch_chunk(ReadEvent::Data(vec![0xac, b'b'])));
    assert!(d.finish_batch(SyncEvent::Synced));
    assert_eq!(d.take_content(), "a\u{20ac}b");
}

#[test]
fn streaming_drain_reports_each_chunk_then_end() {
    // Two chunks of a persistent stream: two reads report another chunk,
    // the third reports end of stream, and the handle is then not open.
    let mut d = FileDriver::from_path_name("stream.txt");
    d.set_persistent(true);
    assert!(d.open_for_read(OpenEvent::Opened));
    d.start_stream_cycle();
    assert!(d.stream_chunk(ReadEvent::Data(b"first ".to_vec())));
    assert!(d.is_open());
    assert!(d.stream_chunk(ReadEvent::Data(b"second".to_vec())));
    assert!(d.is_open());
    assert!(!d.stream_chunk(ReadEvent::Eof));
    assert!(d.close(SyncEvent::Synced));
    assert!(!d.is_open());
    assert_eq!(d.get_error_code(), 0);
}

#[test]
fn non_persistent_stream_closes_after_one_read() {
    let mut d = FileDriver::from_path_name("once.txt");
    assert!(d.open_for_read(OpenEvent::Opened));
    d.start_stream_cycle();
    // Even a successful read of data reports that the stream ends.
    let continues = d.stream_chunk(ReadEvent::Data(b"payload".to_vec()));
    assert!(!continues);
    assert!(d.close(SyncEvent::Synced));
    assert!(!d.is_open());
    assert_eq!(d.get_chunk(), "payload");
    assert_eq!(d.get_error_code(), 0);
}

#[test]
fn interrupted_read_is_not_an_error() {
    // An interruption changes nothing: the previous chunk stays, no error
    // is recorded, the handle stays open, and the read is to be retried.
    let mut d = FileDriver::from_path_name("slow.txt");
    d.set_persistent(true);
    assert!(d.open_for_read(OpenEvent::Opened));
    d.start_stream_cycle();
    assert!(d.stream_chunk(ReadEvent::Data(b"kept".to_vec())));
    assert!(d.stream_chunk(ReadEvent::Interrupted));
    assert!(d.is_open());
    assert_eq!(d.get_error_code(), 0);
    assert_eq!(d.get_chunk(), "kept");
    // The retried read then completes normally.
    assert!(d.stream_chunk(ReadEvent::Data(b" going".to_vec())));
    assert_eq!(d.get_chunk(), " going");
}

#[test]
fn interrupted_read_is_retried_even_when_not_persistent() {
    // On a non-persistent stream an interruption is still no end of stream:
    // the driver asks for a retry and keeps the handle open.
    let mut d = FileDriver::from_path_name("slow.txt");
    assert!(d.open_for_read(OpenEvent::Opened));
    d.start_stream_cycle();
    assert!(d.stream_chunk(ReadEvent::Interrupted));
    assert!(d.is_open());
    assert_eq!(d.get_error_code(), 0);
    // The retried read completes and, being non-persistent, ends the stream.
    assert!(!d.stream_chunk(ReadEvent::Data(b"payload".to_vec())));
    assert_eq!(d.get_chunk(), "payload");
}

#[test]
fn read_failure_is_recorded_and_ends_stream() {
    let mut d = FileDriver::from_path_name("bad.txt");
    d.set_persistent(true);
    assert!(d.open_for_read(OpenEvent::Opened));
    d.start_stream_cycle();
    let continues = d.stream_chunk(ReadEvent::ReadFailed(String::from("input/output error")));
    assert!(!continues);
    assert_eq!(d.get_error_kind(), Some(ErrorKind::ReadFailed));
    assert_eq!(d.get_error_code(), 1);
    assert!(d.get_error_string().contains("Read failed!"));
    assert!(d.get_error_string().contains("Message: input/output error"));
}

#[test]
fn corrupt_bytes_yield_invalid_encoding() {
    // Five bytes with no valid prefix leave a suffix longer than any split
    // character could, which is corrupt input.
    let mut d = FileDriver::from_path_name("binary.bin");
    d.begin_batch();
    assert!(d.open_for_read(OpenEvent::Opened));
    d.start_batch_cycle();
    let more = d.batch_chunk(ReadEvent::Data(vec![0xff, 0xff, 0xff, 0xff, 0xff]));
    assert!(!more);
    assert!(!d.finish_batch(SyncEvent::Synced));
    assert_eq!(d.get_error_kind(), Some(ErrorKind::InvalidEncoding));
    assert_eq!(d.get_error_code(), 1);
}

#[test]
fn file_ending_inside_character_yields_invalid_encoding() {
    let mut d = FileDriver::from_path_name("cut.txt");
    d.begin_batch();
    assert!(d.open_for_read(OpenEvent::Opened));
    d.start_batch_cycle();
    // The file ends after the first byte of a three-byte character.
    assert!(!d.batch_chunk(ReadEvent::Data(vec![b'a', 0xe2])));
    assert!(!d.finish_batch(SyncEvent::Synced));
    assert_eq!(d.get_error_kind(), Some(ErrorKind::InvalidEncoding));
    // The text decoded before the cut is still available.
    assert_eq!(d.take_content(), "a");
}

#[test]
fn taking_content_twice_fails_with_no_content() {
    let mut d = FileDriver::from_path_name("data.txt");
    d.begin_batch();
    assert!(d.open_for_read(OpenEvent::Opened));
    d.start_batch_cycle();
    assert!(!d.batch_chunk(ReadEvent::Data(b"payload".to_vec())));
    assert!(d.finish_batch(SyncEvent::Synced));
    assert_eq!(d.take_content(), "payload");
    assert_eq!(d.get_error_code(), 0);
    let second = d.take_content();
    assert_eq!(second, "");
    assert_eq!(d.get_error_kind(), Some(ErrorKind::NoContent));
    assert_eq!(d.get_error_code(), 2);
    assert!(d.get_error_string().contains("No content is held."));
}

#[test]
fn get_content_is_non_consuming() {
    let mut d = FileDriver::from_path_name("data.txt");
    d.begin_batch();
    assert!(d.open_for_read(OpenEvent::Opened));
    d.start_batch_cycle();
    assert!(!d.batch_chunk(ReadEvent::Data(b"abc".to_vec())));
    assert!(d.finish_batch(SyncEvent::Synced));
    assert_eq!(d.get_content(), "abc");
    assert_eq!(d.get_content(), "abc");
    assert_eq!(d.take_content(), "abc");
    assert_eq!(d.get_content(), "");
}

#[test]
fn batch_chunk_text_accumulates_whole_text() {
    let mut d = FileDriver::from_path_name("data.txt");
    d.begin_batch();
    assert!(d.open_for_read(OpenEvent::Opened));
    d.start_batch_cycle();
    d.set_chunk_size(4);
    assert!(d.batch_chunk(ReadEvent::Data(b"abcd".to_vec())));
    assert!(!d.batch_chunk(ReadEvent::Data(b"ef".to_vec())));
    assert!(d.finish_batch(SyncEvent::Synced));
    assert_eq!(d.get_chunk(), "abcdef");
}

#[test]
fn streaming_resets_content_on_open_when_buffered() {
    let mut d = FileDriver::from_path_name("data.txt");
    assert!(d.open_for_read(OpenEvent::Opened));
    d.start_stream_cycle();
    assert!(!d.stream_chunk(ReadEvent::Data(b"chunk".to_vec())));
    assert!(d.close(SyncEvent::Synced));
    // Streaming mode never builds accumulated content: the buffer reset on
    // open left it empty, and taking it hands out empty text once.
    assert_eq!(d.take_content(), "");
    assert_eq!(d.get_error_code(), 0);
    assert_eq!(d.take_content(), "");
    assert_eq!(d.get_error_code(), 2);
}

#[test]
fn error_state_is_sticky_until_overwritten() {
    let mut d = FileDriver::from_path_name("gone.txt");
    assert!(!d.open_for_read(OpenEvent::NotFound));
    assert_eq!(d.get_error_code(), 3);
    // A later successful cycle does not clear the recorded state...
    assert!(d.open_for_read(OpenEvent::Opened));
    assert_eq!(d.get_error_code(), 3);
    // ...but a later failure overwrites it.
    d.start_stream_cycle();
    assert!(!d.stream_chunk(ReadEvent::ReadFailed(String::from("boom"))));
    assert_eq!(d.get_error_kind(), Some(ErrorKind::ReadFailed));
}

#[test]
fn sticky_error_ends_persistent_stream() {
    let mut d = FileDriver::from_path_name("gone.txt");
    d.set_persistent(true);
    assert!(!d.open_for_read(OpenEvent::NotFound));
    assert!(d.open_for_read(OpenEvent::Opened));
    d.start_stream_cycle();
    // The held error state makes even a good read report the stream's end.
    assert!(!d.stream_chunk(ReadEvent::Data(b"data".to_vec())));
}
