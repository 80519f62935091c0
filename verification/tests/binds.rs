use futures::future::FutureExt;
use rmap::binds::BindMan;

#[test]
fn task_ids_are_handed_out_in_turn() {
    let mut m = BindMan::default();
    let (_f0, h0) = futures::future::ready(()).remote_handle();
    let (_f1, h1) = futures::future::ready(()).remote_handle();
    let (_f2, h2) = futures::future::ready(()).remote_handle();
    assert_eq!(m.spawn(h0), 0);
    assert_eq!(m.spawn(h1), 1);
    assert_eq!(m.spawn(h2), 2);
}
