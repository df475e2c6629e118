use rs3d::dispatch::{DispatchError, Dispatcher};
use rs3d::request::RenderJob;

fn job(model: &str) -> RenderJob {
    RenderJob { model: model.to_string(), textures: vec![], width: 512, height: 512 }
}

#[test]
fn second_submission_waits_for_first_round_trip() {
    let mut d = Dispatcher::new(10);
    assert!(d.try_admit(1));
    assert!(!d.try_admit(2));
    assert_eq!(d.enqueue(1, job("a")), Ok(()));
    let (id, j) = d.start_next().expect("job");
    assert_eq!(id, 1);
    assert_eq!(j, job("a"));
    assert!(d.start_next().is_none());
    assert!(!d.try_admit(2));
    assert_eq!(d.complete(1, Ok(vec![1, 2, 3])), Ok(()));
    assert!(!d.try_admit(2));
    assert_eq!(d.observe(1), Some(Ok(vec![1, 2, 3])));
    assert!(d.try_admit(2));
}

#[test]
fn overflowing_queue_is_reported() {
    let mut d = Dispatcher::new(1);
    assert_eq!(d.enqueue(1, job("a")), Ok(()));
    assert_eq!(d.start_next().map(|p| p.0), Some(1));
    assert_eq!(d.enqueue(2, job("b")), Ok(()));
    assert_eq!(d.enqueue(3, job("c")), Err(DispatchError::QueueFull));
    assert_eq!(d.complete(1, Err("no model".to_string())), Ok(()));
    assert_eq!(d.start_next().map(|p| p.0), Some(2));
}

#[test]
fn jobs_leave_queue_in_arrival_order() {
    let mut d = Dispatcher::new(3);
    for id in [5u64, 3, 8] {
        assert_eq!(d.enqueue(id, job("m")), Ok(()));
    }
    let mut order = vec![];
    while let Some((id, _)) = d.start_next() {
        order.push(id);
        assert_eq!(d.complete(id, Ok(vec![])), Ok(()));
    }
    assert_eq!(order, vec![5, 3, 8]);
}

#[test]
fn result_delivered_once() {
    let mut d = Dispatcher::new(2);
    assert!(d.try_admit(7));
    assert_eq!(d.enqueue(7, job("m")), Ok(()));
    assert!(d.start_next().is_some());
    assert_eq!(d.complete(7, Err("decode".to_string())), Ok(()));
    assert_eq!(d.complete(7, Ok(vec![])), Err(DispatchError::DispatcherFault));
    assert_eq!(d.observe(7), Some(Err("decode".to_string())));
    assert_eq!(d.observe(7), None);
}

#[test]
fn result_for_idle_worker_is_fault() {
    let mut d = Dispatcher::new(2);
    assert_eq!(d.complete(1, Ok(vec![])), Err(DispatchError::DispatcherFault));
    assert_eq!(d.observe(1), None);
    assert!(d.try_admit(1));
}

#[test]
fn permit_returned_when_queue_refuses() {
    let mut d = Dispatcher::new(0);
    assert!(d.try_admit(1));
    assert_eq!(d.enqueue(1, job("a")), Err(DispatchError::QueueFull));
    d.release(2);
    assert!(!d.try_admit(2));
    d.release(1);
    assert!(d.try_admit(2));
}
