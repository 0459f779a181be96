use bytes::Bytes;
use http_body_to_bytes::collector::reserve_for;
use http_body_to_bytes::collector::Collector;
use http_body_to_bytes::collector::Pulled;
use http_body_to_bytes::collector::Step;
use http_body_to_bytes::collector::RESERVE_CEILING;

fn pull_again(step: Step<String>) -> Collector {
    match step {
        Step::Pull(next) => next,
        Step::Done(_) => panic!("the collection is over"),
    }
}

fn done(step: Step<String>) -> Result<Bytes, String> {
    match step {
        Step::Pull(_) => panic!("the collection goes on"),
        Step::Done(result) => result,
    }
}

#[test]
fn reserve_adds_the_hint_up_to_the_ceiling() {
    assert_eq!(RESERVE_CEILING, 16384);
    assert_eq!(reserve_for(3, 4, 0), 7);
    assert_eq!(reserve_for(3, 4, 10), 17);
    assert_eq!(reserve_for(3, 4, 16383), 16390);
    assert_eq!(reserve_for(3, 4, 16384), 16391);
    assert_eq!(reserve_for(3, 4, 16385), 16391);
    assert_eq!(reserve_for(3, 4, u64::MAX), 16391);
    assert_eq!(reserve_for(0, 0, 0), 0);
}

#[test]
fn reserve_never_passes_what_a_vector_holds() {
    let most = isize::MAX as usize;
    assert_eq!(reserve_for(most, 0, 0), most);
    assert_eq!(reserve_for(most, 1, 0), most);
    assert_eq!(reserve_for(most - 10, 5, 100), most);
    assert_eq!(reserve_for(most - 10, 5, 5), most);
    assert_eq!(reserve_for(most - 10, 5, 4), most - 1);
    assert_eq!(reserve_for(usize::MAX, usize::MAX, u64::MAX), most);
}

#[test]
fn new_collector_holds_nothing() {
    let collector = Collector::new();
    assert_eq!(collector.max_length(), None);
    assert_eq!(collector.len(), 0);
    assert_eq!(collector.reserved(), None);
    let collector = Collector::with_max_length(7);
    assert_eq!(collector.max_length(), Some(7));
    assert_eq!(collector.len(), 0);
}

#[test]
fn end_without_a_chunk_gives_an_empty_buffer() {
    let out = done(Collector::new().step(Pulled::End, 0)).unwrap();
    assert_eq!(out, Bytes::new());
}

#[test]
fn first_chunk_is_kept_as_it_came() {
    let chunk = Bytes::from(vec![5u8, 6, 7]);
    let at = chunk.as_ptr();
    let collector = pull_again(Collector::new().step(Pulled::Chunk(chunk), 50));
    assert_eq!(collector.len(), 3);
    assert_eq!(collector.reserved(), None);
    let out = done(collector.step(Pulled::End, 0)).unwrap();
    assert_eq!(out.as_ptr(), at);
    assert_eq!(out, Bytes::from(vec![5u8, 6, 7]));
}

#[test]
fn second_chunk_makes_the_buffer() {
    let collector = pull_again(Collector::new().step(Pulled::Chunk(Bytes::from("abc")), 0));
    let collector = pull_again(collector.step(Pulled::Chunk(Bytes::from("de")), 100));
    assert_eq!(collector.len(), 5);
    assert_eq!(collector.reserved(), Some(105));
    let collector = pull_again(collector.step(Pulled::Chunk(Bytes::from("fgh")), 7));
    assert_eq!(collector.len(), 8);
    assert_eq!(collector.reserved(), Some(105));
    let out = done(collector.step(Pulled::End, 0)).unwrap();
    assert_eq!(out, Bytes::from("abcdefgh"));
}

#[test]
fn large_hint_is_counted_up_to_the_ceiling() {
    let collector = pull_again(Collector::new().step(Pulled::Chunk(Bytes::from("abc")), 0));
    let collector = pull_again(collector.step(Pulled::Chunk(Bytes::from("de")), 1 << 40));
    assert_eq!(collector.reserved(), Some(5 + 16384));
}

#[test]
fn frame_without_data_changes_nothing() {
    let collector = pull_again(Collector::with_max_length(4).step(Pulled::NoData, 9));
    assert_eq!(collector.len(), 0);
    assert_eq!(collector.max_length(), Some(4));
    let collector = pull_again(collector.step(Pulled::Chunk(Bytes::from("ab")), 0));
    let collector = pull_again(collector.step(Pulled::NoData, 0));
    assert_eq!(collector.len(), 2);
    let out = done(collector.step(Pulled::Chunk(Bytes::from("cd")), 0)).unwrap();
    assert_eq!(out, Bytes::from("abcd"));
}

#[test]
fn failure_ends_the_collection() {
    let collector = pull_again(Collector::new().step(Pulled::Chunk(Bytes::from("abc")), 0));
    let collector = pull_again(collector.step(Pulled::Chunk(Bytes::from("def")), 0));
    let result = done(collector.step(Pulled::Failed(String::from("reset")), 0));
    assert_eq!(result, Err(String::from("reset")));
    let result = done(Collector::with_max_length(0).step(Pulled::Failed(String::from("no")), 0));
    assert_eq!(result, Err(String::from("no")));
}

#[test]
fn limit_stops_at_the_chunk_that_reaches_it() {
    let collector = Collector::with_max_length(3);
    let out = done(collector.step(Pulled::Chunk(Bytes::from("foobar")), 0)).unwrap();
    assert_eq!(out, Bytes::from("foobar"));

    let collector = Collector::with_max_length(3);
    let collector = pull_again(collector.step(Pulled::Chunk(Bytes::from("fo")), 0));
    let out = done(collector.step(Pulled::Chunk(Bytes::from("o")), 0)).unwrap();
    assert_eq!(out, Bytes::from("foo"));

    let collector = Collector::with_max_length(4);
    let collector = pull_again(collector.step(Pulled::Chunk(Bytes::from("a")), 0));
    let collector = pull_again(collector.step(Pulled::Chunk(Bytes::from("b")), 0));
    let collector = pull_again(collector.step(Pulled::Chunk(Bytes::from("c")), 0));
    let out = done(collector.step(Pulled::Chunk(Bytes::from("de")), 0)).unwrap();
    assert_eq!(out, Bytes::from("abcde"));
}

#[test]
fn chunk_fits_while_a_vector_can_hold_it() {
    let collector = Collector::new();
    assert!(collector.fits(&Bytes::from("abc")));
    let collector = pull_again(collector.step(Pulled::Chunk(Bytes::from("abc")), 0));
    assert!(collector.fits(&Bytes::from("def")));
    assert!(collector.fits(&Bytes::new()));
    let collector = pull_again(collector.step(Pulled::Chunk(Bytes::from("def")), 0));
    assert!(collector.fits(&Bytes::from("g")));
}
