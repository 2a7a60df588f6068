use smoke::channel::{DeliveryError, ExecutionFailure, Receiver, StreamSender};
use smoke::stream::{Stream, ToStream};

#[test]
fn stream_create() {
    let _ = Stream::new(|sender| sender.send(10));
}

#[test]
fn read() {
    let stream = Stream::new(|sender| {
        sender.send(1)?;
        sender.send(2)?;
        sender.send(3)
    });
    let mut receiver = stream.read_bounded(0);
    assert_eq!(1, receiver.recv().unwrap());
    assert_eq!(2, receiver.recv().unwrap());
    assert_eq!(3, receiver.recv().unwrap());
}

#[test]
fn merge() {
    fn stream() -> Stream<i32> {
        Stream::new(|sender| {
            sender.send(1)?;
            sender.send(1)?;
            sender.send(1)
        })
    }
    let mut acc = 0;
    let s = Stream::merge(vec![stream(), stream(), stream()]);
    for n in s.read_bounded(0).collect() {
        acc = acc + n;
    }
    assert_eq!(9, acc);
}

#[test]
fn map() {
    fn stream() -> Stream<i32> {
        Stream::new(|sender| {
            sender.send(1)?;
            sender.send(1)?;
            sender.send(1)
        })
    }
    let mut acc = 0;
    let s = stream().map(|n| n + 1);
    for n in s.read_bounded(0).collect() {
        acc = acc + n;
    }
    assert_eq!(6, acc);
}

#[test]
fn filter() {
    fn stream() -> Stream<i32> {
        Stream::new(|sender| {
            sender.send(1)?;
            sender.send(2)?;
            sender.send(1)
        })
    }
    let mut acc = 0;
    let s = stream().filter(|n| *n == 1);
    for n in s.read_bounded(0).collect() {
        acc = acc + n;
    }
    assert_eq!(2, acc);
}

#[test]
fn fold() {
    fn stream() -> Stream<i32> {
        Stream::new(|sender| {
            sender.send(1)?;
            sender.send(1)?;
            sender.send(1)
        })
    }
    let task = stream().fold(0, |p, c| p + c);
    assert_eq!(3, task.wait().unwrap());
}

#[test]
fn to_stream() {
    let mut idx = 0;
    for n in (0..10).to_stream().read_bounded(0).collect() {
        assert_eq!(n, idx);
        idx += 1;
    }
    assert_eq!(idx, 10);
}

fn numbers() -> Stream<i32> {
    Stream::output(|sender| {
        sender.send(1)?;
        sender.send(2)?;
        sender.send(3)?;
        sender.send(4)
    })
}

#[test]
fn read_keeps_the_order_of_the_sends_whatever_the_bound() {
    assert_eq!(numbers().read().collect(), vec![1, 2, 3, 4]);
    assert_eq!(numbers().read_bounded(0).collect(), vec![1, 2, 3, 4]);
    assert_eq!(numbers().read_bounded(1).collect(), vec![1, 2, 3, 4]);
    assert_eq!(numbers().read_bounded(64).collect(), vec![1, 2, 3, 4]);
}

#[test]
fn filter_then_map_of_one_to_four() {
    let stream = numbers().filter(|n| n % 2 == 0).map(|n| n * 2);
    assert_eq!(stream.read().collect(), vec![4, 8]);
}

#[test]
fn filter_of_nothing_kept_is_empty() {
    assert_eq!(numbers().filter(|n| *n > 10).read().collect(), Vec::<i32>::new());
}

#[test]
fn fold_is_a_left_fold_in_order_of_arrival() {
    let task = numbers().fold(100, |acc, n| acc * 2 - n);
    assert_eq!(task.wait(), Ok(1574));
}

#[test]
fn fold_of_an_empty_stream_is_the_start() {
    let task = Stream::<i32>::new(|_| Ok(())).fold(7, |acc, n| acc + n);
    assert_eq!(task.wait(), Ok(7));
}

#[test]
fn range_counts_up_to_but_not_including_the_end() {
    assert_eq!(Stream::range(0, 4).read().collect(), vec![0, 1, 2, 3]);
    assert_eq!(Stream::range(-2, 1).read().collect(), vec![-2, -1, 0]);
    assert_eq!(Stream::range(3, 3).read().collect(), Vec::<i32>::new());
    assert_eq!(Stream::range(5, 1).read().collect(), Vec::<i32>::new());
}

#[test]
fn a_vector_is_a_stream_of_its_items() {
    assert_eq!(vec!["a", "b", "c"].to_stream().read().collect(), vec!["a", "b", "c"]);
}

#[test]
fn merge_of_two_keeps_every_item_and_each_order() {
    let merged = Stream::merge(vec![Stream::range(0, 4), Stream::range(4, 8)]);
    let items = merged.read().collect();
    let mut sorted = items.clone();
    sorted.sort();
    assert_eq!(sorted, vec![0, 1, 2, 3, 4, 5, 6, 7]);
    let low: Vec<i32> = items.iter().copied().filter(|n| *n < 4).collect();
    let high: Vec<i32> = items.iter().copied().filter(|n| *n >= 4).collect();
    assert_eq!(low, vec![0, 1, 2, 3]);
    assert_eq!(high, vec![4, 5, 6, 7]);
}

#[test]
fn merge_of_nothing_is_empty() {
    assert_eq!(Stream::<i32>::merge(Vec::new()).read().collect(), Vec::<i32>::new());
}

#[test]
fn a_send_without_a_receiver_hands_the_value_back() {
    let mut sender = StreamSender::disconnected();
    match sender.send(5) {
        Err(DeliveryError(value)) => assert_eq!(value, 5),
        Ok(()) => panic!("a sender without a receiver delivered"),
    }
    assert_eq!(sender.into_receiver().collect(), Vec::<i32>::new());
}

#[test]
fn forwarding_without_a_receiver_stops_at_the_first_item() {
    let mut sender = StreamSender::disconnected();
    match Receiver::from_vec(vec![1, 2, 3]).forward(&mut sender) {
        Err(DeliveryError(value)) => assert_eq!(value, 1),
        Ok(()) => panic!("a sender without a receiver delivered"),
    }
    let mut sender = StreamSender::disconnected();
    assert!(Receiver::<i32>::new().forward(&mut sender).is_ok());
}

#[test]
fn recv_fails_once_nothing_is_left() {
    let mut receiver = Stream::range(0, 1).read();
    assert_eq!(receiver.recv(), Ok(0));
    assert_eq!(receiver.recv(), Err(ExecutionFailure));
    assert_eq!(receiver.recv(), Err(ExecutionFailure));
}

#[test]
fn a_producer_that_stops_on_a_failed_send_is_passed_over() {
    let stream = Stream::new(|sender| {
        sender.send(1)?;
        Err(DeliveryError(2))
    });
    assert_eq!(stream.read().collect(), vec![1]);
}
