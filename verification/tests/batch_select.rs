use bowbend_core::{BatchBuffer, InternalState, PollNext};

#[test]
fn batch_stream_basic_test() {
    let mut buffer: BatchBuffer<i32> = BatchBuffer::new(3);
    assert_eq!(buffer.push(0), None);
    assert_eq!(buffer.push(1), None);
    assert_eq!(buffer.push(2), Some(vec![0, 1, 2]));
    assert_eq!(buffer.flush(), None);
}

#[test]
fn test_remainder() {
    let mut buffer: BatchBuffer<i32> = BatchBuffer::new(3);
    assert_eq!(buffer.push(0), None);
    assert_eq!(buffer.push(1), None);
    assert_eq!(buffer.push(2), Some(vec![0, 1, 2]));
    assert_eq!(buffer.push(3), None);
    assert_eq!(buffer.flush(), Some(vec![3]));
    assert_eq!(buffer.flush(), None);
}

#[test]
fn test_empty() {
    let mut buffer: BatchBuffer<i32> = BatchBuffer::new(3);
    assert_eq!(buffer.flush(), None);
}

#[test]
fn test_batch_size_one() {
    let mut buffer: BatchBuffer<i32> = BatchBuffer::new(1);
    assert_eq!(buffer.push(1), Some(vec![1]));
    assert_eq!(buffer.push(2), Some(vec![2]));
    assert_eq!(buffer.push(3), Some(vec![3]));
    assert_eq!(buffer.flush(), None);
}

#[test]
fn poll_next_alternates() {
    let mut side = PollNext::default();
    assert_eq!(side, PollNext::Main);
    assert_eq!(side.toggle(), PollNext::Main);
    assert_eq!(side, PollNext::Secondary);
    assert_eq!(side.toggle(), PollNext::Secondary);
    assert_eq!(side, PollNext::Main);
    assert_eq!(side.other(), PollNext::Secondary);
}

#[test]
fn merge_state_machine_transitions() {
    let mut state = InternalState::default();
    assert_eq!(state, InternalState::Start);
    state.finish(PollNext::Secondary);
    assert_eq!(state, InternalState::SecondaryFinished);
    state.finish(PollNext::Main);
    assert_eq!(state, InternalState::MainFinished);
}
