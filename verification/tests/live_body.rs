use bytes::Bytes;
use futures_util::FutureExt;
use http_body::Body;
use http_body::Frame;
use http_body_to_bytes::collector::Collector;
use http_body_to_bytes::collector::Pulled;
use http_body_to_bytes::collector::Step;
use http_body_util::BodyExt;
use http_body_util::Empty;
use http_body_util::Full;
use http_body_util::StreamBody;
use std::convert::Infallible;

fn collect_live<T>(collector: Collector, body: &mut T) -> Result<Bytes, T::Error>
where
    T: Body<Data = Bytes> + Unpin,
{
    let mut collector = collector;
    loop {
        let frame = body.frame().now_or_never().expect("the body is ready");
        let pulled = match frame {
            None => Pulled::End,
            Some(Err(error)) => Pulled::Failed(error),
            Some(Ok(frame)) => match frame.into_data() {
                Ok(data) => Pulled::Chunk(data),
                Err(_) => Pulled::NoData,
            },
        };
        if let Pulled::Chunk(chunk) = &pulled {
            assert!(collector.fits(chunk));
        }
        let size_hint_lower = body.size_hint().lower();
        match collector.step(pulled, size_hint_lower) {
            Step::Pull(next) => collector = next,
            Step::Done(result) => return result,
        }
    }
}

#[test]
fn full_body_is_collected() {
    let mut body = Full::<Bytes>::from("foo");
    assert_eq!(
        collect_live(Collector::new(), &mut body).unwrap(),
        Bytes::copy_from_slice(b"foo")
    );
}

#[test]
fn empty_live_body_is_collected() {
    let mut body = Empty::<Bytes>::new();
    assert_eq!(collect_live(Collector::new(), &mut body).unwrap(), Bytes::new());
}

#[test]
fn full_body_past_the_limit_is_returned_whole() {
    let mut body = Full::<Bytes>::from("foobar");
    assert_eq!(
        collect_live(Collector::with_max_length(3), &mut body).unwrap(),
        Bytes::copy_from_slice(b"foobar")
    );
}

#[test]
fn stream_body_stops_at_the_first_chunk() {
    let chunks: Vec<Result<_, Infallible>> = vec![
        Ok(Frame::data(Bytes::from("hello"))),
        Ok(Frame::data(Bytes::from(" "))),
        Ok(Frame::data(Bytes::from("world"))),
    ];
    let mut body = StreamBody::new(futures_util::stream::iter(chunks));
    assert_eq!(
        collect_live(Collector::with_max_length(3), &mut body).unwrap(),
        Bytes::copy_from_slice(b"hello")
    );
    assert_eq!(
        collect_live(Collector::new(), &mut body).unwrap(),
        Bytes::copy_from_slice(b" world")
    );
}

#[test]
fn stream_body_stops_once_the_limit_is_reached() {
    let chunks: Vec<Result<_, Infallible>> = vec![
        Ok(Frame::data(Bytes::from("fo"))),
        Ok(Frame::data(Bytes::from("o"))),
        Ok(Frame::data(Bytes::from("bar"))),
    ];
    let mut body = StreamBody::new(futures_util::stream::iter(chunks));
    assert_eq!(
        collect_live(Collector::with_max_length(3), &mut body).unwrap(),
        Bytes::copy_from_slice(b"foo")
    );
    assert_eq!(
        collect_live(Collector::new(), &mut body).unwrap(),
        Bytes::copy_from_slice(b"bar")
    );
}

#[test]
fn stream_body_failure_is_returned() {
    let chunks: Vec<Result<Frame<Bytes>, String>> = vec![
        Ok(Frame::data(Bytes::from("ab"))),
        Ok(Frame::data(Bytes::from("cd"))),
        Err(String::from("reset")),
    ];
    let mut body = StreamBody::new(futures_util::stream::iter(chunks));
    assert_eq!(
        collect_live(Collector::new(), &mut body),
        Err(String::from("reset"))
    );
}
