use inferno_aoip::common::Sample;
use inferno_aoip::ring_buffer::{
    for_in_ring, is_ring_size, items_to_copy, new_owned, useful_after_copy, wrap_external_sink,
    wrap_external_source, wrapsub, ExternalBufferParameters, ExternalRBInput, ExternalRBOutput,
    PositionReportDestination, RBOutput, ReadResult,
};
use std::sync::atomic::{AtomicUsize, Ordering};
use std::sync::Arc;

fn range(from: Sample, to: Sample) -> Vec<Sample> {
    (from..to).collect()
}

fn full(count: usize) -> ReadResult {
    ReadResult { useful_start_index: 0, useful_end_index: count }
}

#[test]
fn test_sequential_single_write_read() {
    let mut input = new_owned::<Sample>(16, 0, 4);
    let mut read_values = vec![0; 16];
    for i in 0..16usize {
        input.write_from_at(i, &[i as i32]);
        let output = RBOutput::new(input.shared());
        assert_eq!(output.read_at(i, &mut read_values[i..i + 1]), full(1));
    }
    assert_eq!(read_values, (0..16).collect::<Vec<_>>());
}

fn non_sequential_write_single_read(wait: usize, expected: Vec<i32>) {
    let mut input = new_owned::<Sample>(16, 0, wait);
    input.write_from_at(4, &range(4, 8));
    input.write_from_at(0, &range(0, 4));
    let output = RBOutput::new(input.shared());
    let mut read_values = vec![0; 8];
    for i in 0..8usize {
        assert_eq!(output.read_at(i, &mut read_values[i..i + 1]), full(1));
    }
    assert_eq!(read_values, expected);
}

#[test]
fn test_non_sequential_write_single_read() {
    non_sequential_write_single_read(8, (0..8).collect::<Vec<_>>());
}

#[test]
fn test_fixed_hole_single_read() {
    let mut input = new_owned::<Sample>(16, 0, 6);
    input.write_from_at(0, &range(0, 2)); // write 0, 1
    input.write_from_at(4, &range(4, 8)); // write 4, 5, 6, 7
    input.write_from_at(2, &range(2, 4)); // write 2, 3 to fix the hole
    let output = RBOutput::new(input.shared());
    let mut read_values = vec![0; 8];
    for i in 0..8usize {
        assert_eq!(output.read_at(i, &mut read_values[i..i + 1]), full(1));
    }
    assert_eq!(read_values, (0..8).collect::<Vec<_>>());
}

#[test]
fn test_too_large_hole_single_read() {
    let mut input = new_owned::<Sample>(16, 0, 3);
    input.write_from_at(0, &vec![-1; 8]);
    input.write_from_at(8, &vec![-1; 8]);
    input.write_from_at(16, &range(0, 2)); // write 0, 1
    input.write_from_at(16 + 4, &range(4, 8)); // write 4, 5, 6, 7
    let output = RBOutput::new(input.shared());
    let mut read_values = vec![0; 8];
    for i in 0..8usize {
        assert_eq!(output.read_at(i + 16, &mut read_values[i..i + 1]), full(1));
    }
    let mut expected = (0..8).collect::<Vec<_>>();
    expected[2] = 0;
    expected[3] = 0;
    assert_eq!(read_values, expected);
}

#[test]
fn test_write_read() {
    let mut input = new_owned::<Sample>(16, 0, 4);
    input.write_from_at(0, &range(0, 8)); // write 8 items at once
    input.write_from_at(8, &range(8, 16)); // write another 8 items at once
    let output = RBOutput::new(input.shared());
    let mut read_values = vec![0; 16];
    assert_eq!(output.read_at(0, &mut read_values[0..8]), full(8));
    assert_eq!(output.read_at(8, &mut read_values[8..16]), full(8));
    assert_eq!(read_values, (0..16).collect::<Vec<_>>());
}

#[test]
fn test_wraparound_separate() {
    let mut input = new_owned::<Sample>(16, 0, 4);
    input.write_from_at(12, &range(12, 16)); // write near the end
    input.write_from_at(16, &range(16, 20)); // wrap around to the beginning
    let output = RBOutput::new(input.shared());
    let mut read_values = vec![0; 8];
    assert_eq!(output.read_at(12, &mut read_values[0..4]), full(4));
    assert_eq!(output.read_at(16, &mut read_values[4..8]), full(4));
    let expected: Vec<i32> = (12..20).collect();
    assert_eq!(&read_values[0..4], &expected[0..4]);
    assert_eq!(&read_values[4..8], &expected[4..8]);
}

#[test]
fn test_wraparound() {
    let mut input = new_owned::<Sample>(16, 0, 4);
    input.write_from_at(14, &range(14, 18)); // write across the boundary
    input.write_from_at(18, &range(100, 102)); // fix hole 0..14
    let output = RBOutput::new(input.shared());
    let mut read_values = vec![0; 4];
    assert_eq!(output.read_at(14, &mut read_values), full(4));
    let expected: Vec<i32> = (14..18).collect();
    assert_eq!(read_values, expected);
}

#[test]
fn test_wraparound_hole_fix_with_0() {
    let mut input = new_owned::<Sample>(16, 0, 4);
    input.write_from_at(14, &range(14, 18)); // write across the boundary
    input.write_from_at(18, &range(18, 22)); // fix the hole and wrap around the start
    let output = RBOutput::new(input.shared());
    let mut read_values = vec![0; 10];
    assert_eq!(output.read_at(12, &mut read_values[0..6]), full(6));
    assert_eq!(output.read_at(18, &mut read_values[6..10]), full(4));
    let expected: Vec<i32> = vec![0; 2].into_iter().chain(14..22).collect();
    assert_eq!(read_values, expected);
}

#[test]
fn test_hole_fix_with_0() {
    let mut input = new_owned::<Sample>(16, 0, 4);
    input.write_from_at(0, &range(0, 4)); // write some items
    input.write_from_at(8, &range(8, 12)); // write items creating a hole
    input.write_from_at(12, &range(12, 16)); // write items after hole_fix_wait
    let output = RBOutput::new(input.shared());
    let mut read_values = vec![0; 16];
    assert_eq!(output.read_at(0, &mut read_values[0..16]), full(16));
    let expected: Vec<i32> = (0..4)
        .chain(vec![0; 4]) // default values for the hole
        .chain(8..16)
        .collect();
    assert_eq!(read_values, expected);
}

#[test]
fn test_close_items_until_noop_when_behind_readable_pos() {
    let mut input = new_owned::<Sample>(16, 0, 100);
    input.write_from_at(0, &range(0, 4));
    assert_eq!(RBOutput::new(input.shared()).readable_until(), 4);
    input.close_items_until(2);
    assert_eq!(RBOutput::new(input.shared()).readable_until(), 4);
    assert_eq!(RBOutput::new(input.shared()).holes_count(), 0);
    let mut read_values = vec![0; 4];
    assert_eq!(RBOutput::new(input.shared()).read_at(0, &mut read_values), ReadResult { useful_start_index: 0, useful_end_index: 4 });
    assert_eq!(read_values, vec![0, 1, 2, 3]);
}

#[test]
fn test_close_items_until_exact_boundary() {
    let mut input = new_owned::<Sample>(16, 0, 100);
    input.write_from_at(0, &range(0, 4));
    assert_eq!(RBOutput::new(input.shared()).readable_until(), 4);
    input.close_items_until(4);
    assert_eq!(RBOutput::new(input.shared()).readable_until(), 4);
    assert_eq!(RBOutput::new(input.shared()).holes_count(), 0);
}

#[test]
fn test_close_items_until_future_fill_empty_buffer() {
    let mut input = new_owned::<Sample>(16, 100, 100);
    let mut read_values = vec![-1; 8];
    assert_eq!(RBOutput::new(input.shared()).read_at(100, &mut read_values), ReadResult { useful_start_index: 0, useful_end_index: 0 });
    input.close_items_until(108);
    assert_eq!(RBOutput::new(input.shared()).readable_until(), 108);
    assert_eq!(RBOutput::new(input.shared()).read_at(100, &mut read_values), ReadResult { useful_start_index: 0, useful_end_index: 8 });
    assert_eq!(read_values, vec![0; 8]);
}

#[test]
fn test_close_items_until_future_fill_past_writes() {
    let mut input = new_owned::<Sample>(16, 0, 100);
    input.write_from_at(0, &range(0, 4));
    let mut read_values = vec![-1; 8];
    assert_eq!(RBOutput::new(input.shared()).read_at(4, &mut read_values[4..8]), ReadResult { useful_start_index: 0, useful_end_index: 0 });
    input.close_items_until(8);
    assert_eq!(RBOutput::new(input.shared()).readable_until(), 8);
    assert_eq!(RBOutput::new(input.shared()).read_at(0, &mut read_values), ReadResult { useful_start_index: 0, useful_end_index: 8 });
    assert_eq!(read_values, vec![0, 1, 2, 3, 0, 0, 0, 0]);
}

#[test]
fn test_close_items_until_future_fill_wraparound() {
    let mut input = new_owned::<Sample>(16, 14, 100);
    let mut read_values = vec![-1; 4];
    assert_eq!(RBOutput::new(input.shared()).read_at(14, &mut read_values), ReadResult { useful_start_index: 0, useful_end_index: 0 });
    input.close_items_until(18);
    assert_eq!(RBOutput::new(input.shared()).readable_until(), 18);
    assert_eq!(RBOutput::new(input.shared()).read_at(14, &mut read_values), ReadResult { useful_start_index: 0, useful_end_index: 4 });
    assert_eq!(read_values, vec![0; 4]);
}

#[test]
fn test_close_items_until_idempotent() {
    let mut input = new_owned::<Sample>(16, 0, 100);
    input.write_from_at(0, &range(0, 2));
    input.write_from_at(4, &range(4, 6));
    assert_eq!(RBOutput::new(input.shared()).readable_until(), 2);
    input.close_items_until(6);
    assert_eq!(RBOutput::new(input.shared()).readable_until(), 6);
    assert_eq!(RBOutput::new(input.shared()).holes_count(), 1);
    input.close_items_until(6);
    assert_eq!(RBOutput::new(input.shared()).readable_until(), 6);
    assert_eq!(RBOutput::new(input.shared()).holes_count(), 1);
    let mut read_values = vec![-1; 6];
    assert_eq!(RBOutput::new(input.shared()).read_at(0, &mut read_values), ReadResult { useful_start_index: 0, useful_end_index: 6 });
    assert_eq!(read_values, vec![0, 1, 0, 0, 4, 5]);
}

#[test]
fn test_close_items_until_after_reset() {
    let mut input = new_owned::<Sample>(16, 0, 100);
    input.write_from_at(0, &range(100, 108));
    input.reset(200);
    let mut read_values = vec![-1; 4];
    assert_eq!(RBOutput::new(input.shared()).read_at(200, &mut read_values), ReadResult { useful_start_index: 0, useful_end_index: 0 });
    input.close_items_until(204);
    assert_eq!(RBOutput::new(input.shared()).readable_until(), 204);
    assert_eq!(RBOutput::new(input.shared()).read_at(200, &mut read_values), ReadResult { useful_start_index: 0, useful_end_index: 4 });
    assert_eq!(read_values, vec![0; 4]);
}

#[test]
fn test_close_items_until_usize_wraparound() {
    let mut input = new_owned::<Sample>(16, usize::MAX - 2, 100);
    let mut read_values = vec![-1; 4];
    assert_eq!(
        RBOutput::new(input.shared()).read_at(usize::MAX - 2, &mut read_values),
        ReadResult { useful_start_index: 0, useful_end_index: 0 }
    );
    input.close_items_until((usize::MAX - 2).wrapping_add(4));
    assert_eq!(RBOutput::new(input.shared()).readable_until(), (usize::MAX - 2).wrapping_add(4));
    assert_eq!(
        RBOutput::new(input.shared()).read_at(usize::MAX - 2, &mut read_values),
        ReadResult { useful_start_index: 0, useful_end_index: 4 }
    );
    assert_eq!(read_values, vec![0; 4]);
}

#[test]
fn test_close_items_until_mixed_ready_unready() {
    let mut input = new_owned::<Sample>(16, 0, 100);
    input.write_from_at(0, &range(0, 2));
    input.write_from_at(4, &range(4, 6));
    assert_eq!(RBOutput::new(input.shared()).readable_until(), 2);
    input.close_items_until(6);
    assert_eq!(RBOutput::new(input.shared()).readable_until(), 6);
    assert_eq!(RBOutput::new(input.shared()).holes_count(), 1);
    let mut read_values = vec![-1; 6];
    assert_eq!(RBOutput::new(input.shared()).read_at(0, &mut read_values), ReadResult { useful_start_index: 0, useful_end_index: 6 });
    assert_eq!(read_values, vec![0, 1, 0, 0, 4, 5]);
}

#[test]
fn test_close_items_until_consecutive_increasing() {
    let mut input = new_owned::<Sample>(16, 0, 100);
    input.write_from_at(0, &range(0, 2));
    input.write_from_at(6, &range(6, 8));
    assert_eq!(RBOutput::new(input.shared()).readable_until(), 2);
    input.close_items_until(4);
    assert_eq!(RBOutput::new(input.shared()).readable_until(), 4);
    assert_eq!(RBOutput::new(input.shared()).holes_count(), 1);
    input.close_items_until(6);
    assert_eq!(RBOutput::new(input.shared()).readable_until(), 6);
    assert_eq!(RBOutput::new(input.shared()).holes_count(), 2);
    input.close_items_until(8);
    assert_eq!(RBOutput::new(input.shared()).readable_until(), 8);
    assert_eq!(RBOutput::new(input.shared()).holes_count(), 2);
    let mut read_values = vec![-1; 8];
    assert_eq!(RBOutput::new(input.shared()).read_at(0, &mut read_values), ReadResult { useful_start_index: 0, useful_end_index: 8 });
    assert_eq!(read_values, vec![0, 1, 0, 0, 0, 0, 6, 7]);
}

#[test]
fn test_close_items_until_does_not_zero_already_ready_items() {
    let mut input = new_owned::<Sample>(16, 0, 100);

    // Simulate an active audio stream: every slot is written and ready.
    input.write_from_at(0, &range(100, 108));
    input.write_from_at(8, &range(108, 116));
    assert_eq!(RBOutput::new(input.shared()).readable_until(), 16);

    // On disconnect SilenceWriter starts calling close_items_until.
    // It future-fills a bit, but existing ready samples stay as-is.
    input.close_items_until(20);

    assert_eq!(RBOutput::new(input.shared()).readable_until(), 20);
    // Positions 16..19 were future-filled with zeros.
    let mut read_future = vec![-1; 4];
    assert_eq!(
        RBOutput::new(input.shared()).read_at(16, &mut read_future),
        ReadResult { useful_start_index: 0, useful_end_index: 4 }
    );
    assert_eq!(read_future, vec![0; 4]);

    // The buffer slots behind readable_pos still hold the original audio.
    // If the consumer reads near the current position (within items_size),
    // it gets a mix of stale audio + silence — this is the corruption
    // reported in issue #41.
    let mut read_tail = vec![-1; 8];
    assert_eq!(
        RBOutput::new(input.shared()).read_at(12, &mut read_tail),
        ReadResult { useful_start_index: 0, useful_end_index: 8 }
    );
    // positions 12..15 = original audio, 16..19 = zeros (future-filled)
    assert_eq!(read_tail, vec![112, 113, 114, 115, 0, 0, 0, 0]);
}

/// Simulates what happens if flows_rx calls close_items_until(ts + latency)
/// *before* the actual network packet arrives.
#[test]
fn test_close_items_until_before_packet_arrives() {
    // Use a 32-item buffer so that reading 18 samples from position 0
    // does not trigger the "lagging behind > items_size" guard in read_at.
    let mut input = new_owned::<Sample>(32, 0, 100);

    // Phase 1: Timer fires ahead of the packet stream.
    // Future-fills [0, 8) with zeros and advances writing_pos to 8.
    input.close_items_until(8);
    assert_eq!(RBOutput::new(input.shared()).readable_until(), 8);
    assert_eq!(RBOutput::new(input.shared()).holes_count(), 0);

    // Case A — whole packet BEFORE the closed position.
    // A late/backlogged packet writes to [0, 4), entirely inside the
    // future-filled range.  It overwrites its own slots but leaves the
    // tail [4, 8) as zeros.
    input.write_from_at(0, &range(42, 46));
    assert_eq!(RBOutput::new(input.shared()).readable_until(), 8);

    let mut buf = vec![-1; 8];
    assert_eq!(RBOutput::new(input.shared()).read_at(0, &mut buf), ReadResult { useful_start_index: 0, useful_end_index: 8 });
    assert_eq!(buf, vec![42, 43, 44, 45, 0, 0, 0, 0]);

    // Case B — closed position INSIDE the packet time range.
    // Packet [4, 10) straddles the boundary: [4, 8) overwrites zeros,
    // [8, 10) is newly written.  writing_pos advances to 10.
    input.write_from_at(4, &range(50, 56));
    assert_eq!(RBOutput::new(input.shared()).readable_until(), 10);

    let mut buf2 = vec![-1; 10];
    assert_eq!(RBOutput::new(input.shared()).read_at(0, &mut buf2), ReadResult { useful_start_index: 0, useful_end_index: 10 });
    assert_eq!(buf2, vec![42, 43, 44, 45, 50, 51, 52, 53, 54, 55]);

    // Case C — whole packet AFTER the closed position, creating a hole.
    // Packet [14, 18) arrives with a gap [10, 14).
    input.write_from_at(14, &range(70, 74));
    // readable_pos is stuck at 10 because of the hole.
    assert_eq!(RBOutput::new(input.shared()).readable_until(), 10);

    // A subsequent close_items_until fixes the hole [10, 14) with zeros
    // and advances readable_pos to 18.
    input.close_items_until(18);
    assert_eq!(RBOutput::new(input.shared()).readable_until(), 18);
    assert_eq!(RBOutput::new(input.shared()).holes_count(), 1);

    let mut buf3 = vec![-1; 18];
    assert_eq!(RBOutput::new(input.shared()).read_at(0, &mut buf3), ReadResult { useful_start_index: 0, useful_end_index: 18 });
    let expected: Vec<i32> = vec![42, 43, 44, 45, 50, 51, 52, 53, 54, 55]
        .into_iter()
        .chain(vec![0; 4])
        .chain(70..74)
        .collect();
    assert_eq!(buf3, expected);
}

/// Write via the ring buffer into foreign memory, then look at the memory directly.
#[test]
fn test_external_buffer_close_items_until_future_fill_and_rotation() {
    let params = ExternalBufferParameters::new(vec![-1; 16], 1, true, None);
    let mut input = wrap_external_sink::<Sample>(params, 12, 100);

    // Write samples 14..18 (wraparound)
    input.write_from_at(14, &range(100, 104));

    // There must be a hole 12..14, but not counted yet since we haven't closed it
    assert_eq!(RBOutput::new(input.shared()).holes_count(), 0);
    assert_eq!(RBOutput::new(input.shared()).readable_until(), 12);
    assert_eq!(input.shared().buffer().items[12], -1);
    assert_eq!(input.shared().buffer().items[13], -1);

    // Close the hole
    // (actually, close items a bit before writing_pos to verify that it detects the hole already)
    input.close_items_until(16);

    assert_eq!(RBOutput::new(input.shared()).holes_count(), 1);
    assert_eq!(input.shared().buffer().items[12], 0);
    assert_eq!(input.shared().buffer().items[13], 0);

    let last_holes_count = RBOutput::new(input.shared()).holes_count();

    input.close_items_until(18);
    assert_eq!(RBOutput::new(input.shared()).readable_until(), 18);
    assert_eq!(RBOutput::new(input.shared()).holes_count(), last_holes_count);

    let buf = &input.shared().buffer().items;
    assert_eq!(buf[14], 100);
    assert_eq!(buf[15], 101);
    assert_eq!(buf[0], 102);
    assert_eq!(buf[1], 103);
    for i in 2..12 {
        assert_eq!(buf[i], -1);
    }

    // Future-fill past writing_pos; [16, 20) wraps to ring indices [0, 4).
    input.close_items_until(20);

    assert_eq!(RBOutput::new(input.shared()).readable_until(), 20);
    assert_eq!(RBOutput::new(input.shared()).holes_count(), last_holes_count);

    let buf = &input.shared().buffer().items;
    // Wrapped future-fill should have zeroed buf[0..4].
    assert_eq!(buf[2], 0);
    assert_eq!(buf[3], 0);

    // Positions 14..18 must stay untouched.
    assert_eq!(buf[14], 100);
    assert_eq!(buf[15], 101);
    assert_eq!(buf[0], 102);
    assert_eq!(buf[1], 103);

    // 12..14 contain the initial hole, already fixed
    assert_eq!(buf[12], 0);
    assert_eq!(buf[13], 0);

    // Everything else still carries the initial sentinel.
    for i in 4..12 {
        assert_eq!(buf[i], -1);
    }
}

#[test]
fn positions_wrap_around() {
    assert_eq!(wrapsub(5, 3), 2);
    assert_eq!(wrapsub(3, 5), -2);
    assert_eq!(wrapsub(1, usize::MAX), 2);
    assert_eq!(wrapsub(usize::MAX, 1), -2);
}

#[test]
fn ring_sizes_are_powers_of_two() {
    assert!(is_ring_size(1));
    assert!(is_ring_size(16));
    assert!(!is_ring_size(0));
    assert!(!is_ring_size(12));
}

#[test]
fn way_along_the_ring() {
    assert_eq!(for_in_ring(16, 14, 18), (14, 4));
    assert_eq!(for_in_ring(16, 18, 20), (2, 2));
}

#[test]
fn reader_waits_for_data_and_notices_overwriting() {
    assert_eq!(items_to_copy(16, 8, 10, 4), None);
    assert_eq!(items_to_copy(16, 40, 10, 4), None);
    assert_eq!(items_to_copy(16, 12, 10, 4), Some(2));
    assert_eq!(items_to_copy(16, 20, 10, 4), Some(4));
    assert_eq!(useful_after_copy(16, 29, 10, 8), ReadResult { useful_start_index: 3, useful_end_index: 8 });
    assert_eq!(useful_after_copy(16, 60, 10, 8), ReadResult { useful_start_index: 8, useful_end_index: 8 });
    assert_eq!(useful_after_copy(16, 20, 10, 8), full(8));
}

#[test]
fn written_items_are_read_back_and_others_stay() {
    let mut input = new_owned::<Sample>(8, 0, 100);
    input.write_from_at(0, &[1, 2, 3, 4]);
    input.write_from_at(4, &[5, 6]);
    let mut values = vec![0; 6];
    assert_eq!(RBOutput::new(input.shared()).read_at(0, &mut values), full(6));
    assert_eq!(values, vec![1, 2, 3, 4, 5, 6]);
}

#[test]
fn readable_position_is_reported() {
    let table = Arc::new(vec![AtomicUsize::new(0), AtomicUsize::new(0)]);
    let dest = PositionReportDestination::new(table.clone(), 1);
    let params = ExternalBufferParameters::new(vec![0; 8], 1, true, Some(dest));
    let mut input = wrap_external_sink::<Sample>(params, 0, 100);
    input.write_from_at(0, &[7, 8, 9]);
    assert_eq!(table[1].load(Ordering::Acquire), 3);
    assert_eq!(table[0].load(Ordering::Acquire), 0);
}

#[test]
fn invalid_memory_is_left_alone() {
    let params = ExternalBufferParameters::new(vec![-1; 8], 1, false, None);
    let mut input = wrap_external_sink::<Sample>(params, 0, 100);
    input.write_from_at(0, &[7, 8, 9]);
    assert_eq!(input.shared().buffer().items, vec![-1; 8]);
}

#[test]
fn strided_memory_is_filled_with_gaps() {
    let params = ExternalBufferParameters::new(vec![-1; 7], 2, true, None);
    let mut input = wrap_external_sink::<Sample>(params, 0, 100);
    assert_eq!(input.ring_buffer_size(), 4);
    input.write_from_at(1, &[7, 8]);
    assert_eq!(input.shared().buffer().items, vec![-1, -1, 7, -1, 8, -1, -1]);
}

#[test]
fn foreign_writer_keeps_a_margin() {
    let params = ExternalBufferParameters::new(vec![1, 2, 3, 4], 1, true, None);
    let shared = wrap_external_source::<Sample>(params, 10);
    let mut input = ExternalRBInput { rb: shared, margin: 2 };
    input.advance(14);
    assert_eq!(RBOutput::new(&input.rb).readable_until(), 12);
    assert_eq!(input.position(99), 99);
    let output = ExternalRBOutput { rb: input.rb };
    assert_eq!(output.position(99), 12);
}

#[test]
fn peak_is_the_greatest_magnitude() {
    let mut input = new_owned::<Sample>(8, 0, 100);
    input.write_from_at(0, &[3, -9, 5]);
    assert_eq!(input.shared().peak_sample(), 9);
}

#[test]
fn blocks_in_wrong_order_end_as_if_in_turn() {
    let mut in_turn = new_owned::<Sample>(16, usize::MAX - 3, 10);
    let mut swapped = new_owned::<Sample>(16, usize::MAX - 3, 10);
    let first = usize::MAX - 1;
    let second = first.wrapping_add(3);
    in_turn.write_from_at(first, &range(1, 4));
    let readable = in_turn.write_from_at(second, &range(4, 9));
    swapped.write_from_at(second, &range(4, 9));
    assert_eq!(swapped.write_from_at(first, &range(1, 4)), readable);
    in_turn.close_items_until(second.wrapping_add(5));
    swapped.close_items_until(second.wrapping_add(5));
    let (a, b) = (RBOutput::new(in_turn.shared()), RBOutput::new(swapped.shared()));
    let (mut from_a, mut from_b) = (vec![0; 10], vec![0; 10]);
    assert_eq!(a.read_at(usize::MAX - 3, &mut from_a), full(10));
    assert_eq!(b.read_at(usize::MAX - 3, &mut from_b), full(10));
    assert_eq!(from_a, from_b);
    assert_eq!(from_a, vec![0, 0, 1, 2, 3, 4, 5, 6, 7, 8]);
    assert_eq!(a.holes_count(), b.holes_count());
}

#[test]
fn readable_position_never_moves_back() {
    let mut input = new_owned::<Sample>(16, usize::MAX - 20, 6);
    let mut before = usize::MAX - 20;
    for step in [0isize, 8, 3, -9, 20, 14, 12, 40, 39, 2] {
        let start = (usize::MAX - 20).wrapping_add_signed(step);
        let readable = input.write_from_at(start, &range(0, 5));
        assert!(wrapsub(readable, before) >= 0);
        assert_eq!(readable, RBOutput::new(input.shared()).readable_until());
        before = readable;
    }
    input.close_items_until(before.wrapping_sub(3));
    assert_eq!(RBOutput::new(input.shared()).readable_until(), before);
}
