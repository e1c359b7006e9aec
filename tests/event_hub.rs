use muffui::event_hub::{
    EventHub, EventInfo, Message, Dispatch, WM_SIZE, WM_COMMAND, WM_KEYUP, WM_SETCURSOR,
    WM_LBUTTONUP, WM_CHAR,
};
use muffui::geometry::Rect;
use muffui::props::SharedProps;

fn msg(hwnd: isize, message: u32, w: usize, l: isize) -> Message {
    Message { hwnd, message, wParam: w, lParam: l }
}

fn handles(hub: &EventHub) -> Vec<isize> {
    hub.events().iter().map(|e| e.hwnd).collect()
}

#[test]
fn classify_resize() {
    let e = EventInfo::classify(msg(5, WM_SIZE, 0, 0));
    assert_eq!((e.hwnd, e.target), (5, 5));
    assert_eq!(e.listeners, vec![SharedProps::DidResize(0)]);
    assert!(e.props.is_empty());
}

#[test]
fn classify_selection_change_targets_the_control() {
    let e = EventInfo::classify(msg(5, WM_COMMAND, (1 << 16) | 7, 9));
    assert_eq!((e.hwnd, e.target), (9, 5));
    assert_eq!(e.listeners, vec![SharedProps::DidChange(0)]);
    let other = EventInfo::classify(msg(5, WM_COMMAND, (3 << 16) | 7, 9));
    assert_eq!((other.hwnd, other.target), (0, 0));
    assert!(other.listeners.is_empty());
}

#[test]
fn classify_keys_and_clicks() {
    assert_eq!(EventInfo::classify(msg(4, WM_KEYUP, 13, 0)).listeners, vec![SharedProps::DidClick(0)]);
    assert_eq!(EventInfo::classify(msg(4, WM_KEYUP, 32, 0)).listeners, vec![SharedProps::DidClick(0)]);
    let other_key = EventInfo::classify(msg(4, WM_KEYUP, 65, 0));
    assert!(other_key.listeners.is_empty());
    assert_eq!(other_key.hwnd, 0);
    assert_eq!(EventInfo::classify(msg(4, WM_LBUTTONUP, 0, 0)).listeners, vec![SharedProps::DidClick(0)]);
    assert_eq!(EventInfo::classify(msg(4, WM_CHAR, 65, 0)).listeners, vec![SharedProps::DidChange(0)]);
}

#[test]
fn classify_ignored_messages() {
    let cursor = EventInfo::classify(msg(4, WM_SETCURSOR, 0, 0));
    assert_eq!((cursor.hwnd, cursor.target), (4, 4));
    assert!(cursor.listeners.is_empty());
    let mouse_move = EventInfo::classify(msg(4, 0x0200, 0, 0));
    assert_eq!((mouse_move.hwnd, mouse_move.target), (0, 0));
    assert!(mouse_move.listeners.is_empty());
}

#[test]
fn bubbling_records_target_and_every_ancestor() {
    let mut hub = EventHub::new();
    hub.enqueueEvent(msg(10, WM_LBUTTONUP, 0, 0), &vec![20, 30, 40]);
    assert_eq!(handles(&hub), vec![10, 20, 30, 40]);
    for e in hub.events().iter() {
        assert_eq!(e.listeners, vec![SharedProps::DidClick(0)]);
        assert_eq!(e.target, 10);
    }
}

#[test]
fn bubbling_stops_at_null_handle() {
    let mut hub = EventHub::new();
    hub.enqueueEvent(msg(10, WM_LBUTTONUP, 0, 0), &vec![20, 0, 40]);
    assert_eq!(handles(&hub), vec![10, 20]);
}

#[test]
fn discarded_event_queues_nothing() {
    let mut hub = EventHub::new();
    hub.enqueueEvent(msg(10, WM_SETCURSOR, 0, 0), &vec![20]);
    assert!(hub.events().is_empty());
}

#[test]
fn events_coalesce_per_handle() {
    let mut hub = EventHub::new();
    hub.enqueueEvent(msg(10, WM_LBUTTONUP, 0, 0), &vec![20, 30]);
    hub.enqueueEvent(msg(20, WM_SIZE, 0, 0), &vec![30]);
    assert_eq!(handles(&hub), vec![10, 20, 30]);
    assert_eq!(hub.events()[0].listeners, vec![SharedProps::DidClick(0)]);
    assert_eq!(hub.events()[1].listeners, vec![SharedProps::DidClick(0), SharedProps::DidResize(0)]);
    assert_eq!(hub.events()[1].target, 10);
    assert_eq!(hub.events()[2].listeners, vec![SharedProps::DidClick(0), SharedProps::DidResize(0)]);
}

#[test]
fn put_listener_unions_listener_kinds() {
    let mut hub = EventHub::new();
    hub.enqueueEvent(msg(10, WM_LBUTTONUP, 0, 0), &vec![20]);
    hub.putListener(10, vec![SharedProps::Title(String::from("x")), SharedProps::DidClick(7), SharedProps::DidChange(8)]);
    assert_eq!(hub.events()[0].listeners, vec![SharedProps::DidClick(7), SharedProps::DidChange(8)]);
    assert_eq!(hub.events()[1].listeners, vec![SharedProps::DidClick(0)]);
}

#[test]
fn put_listener_adds_kind_missing_from_record() {
    let mut hub = EventHub::new();
    hub.enqueueEvent(msg(10, WM_SIZE, 0, 0), &vec![]);
    hub.putListener(10, vec![SharedProps::DidClick(3)]);
    assert_eq!(hub.events()[0].listeners, vec![SharedProps::DidResize(0), SharedProps::DidClick(3)]);
}

#[test]
fn put_listener_without_queued_event_is_noop() {
    let mut hub = EventHub::new();
    hub.putListener(10, vec![SharedProps::DidClick(7)]);
    assert!(hub.events().is_empty());
}

#[test]
fn dispatch_fires_each_listener_once() {
    let mut hub = EventHub::new();
    hub.enqueueEvent(msg(10, WM_LBUTTONUP, 0, 0), &vec![20]);
    hub.putListener(10, vec![SharedProps::DidClick(7)]);
    let fired = hub.dispatchEvents();
    assert_eq!(
        fired,
        vec![
            Dispatch { hwnd: 10, listener: SharedProps::DidClick(7) },
            Dispatch { hwnd: 20, listener: SharedProps::DidClick(0) },
        ]
    );
    assert!(hub.events().iter().all(|e| e.listeners.is_empty()));
    assert_eq!(handles(&hub), vec![10, 20]);
}

#[test]
fn dispatch_twice_fires_nothing_the_second_time() {
    let mut hub = EventHub::new();
    hub.enqueueEvent(msg(3, WM_SIZE, 0, 0), &vec![1]);
    assert_eq!(hub.dispatchEvents().len(), 2);
    assert!(hub.dispatchEvents().is_empty());
}

#[test]
fn event_data_for_resize_and_change() {
    let rect = Rect::new(10, 20, 110, 70);
    let d = EventHub::eventData(
        &SharedProps::DidResize(1),
        Some(String::from("Button")),
        Some(String::from("OK")),
        Some(rect),
        Some(2),
        false,
    );
    assert_eq!(
        d,
        vec![
            SharedProps::ClassName(String::from("Button")),
            SharedProps::Title(String::from("OK")),
            SharedProps::PosX(10),
            SharedProps::PosY(20),
            SharedProps::Width(100),
            SharedProps::Height(50),
        ]
    );
    let c = EventHub::eventData(&SharedProps::DidChange(1), None, None, None, Some(2), true);
    assert_eq!(c, vec![SharedProps::SelectedIndex(2)]);
    let k = EventHub::eventData(&SharedProps::DidClick(1), None, Some(String::from("t")), None, Some(2), true);
    assert_eq!(k, vec![SharedProps::Title(String::from("t")), SharedProps::Selected(true)]);
    let r = EventHub::eventData(&SharedProps::DidResize(1), None, None, None, None, false);
    assert_eq!(r, vec![SharedProps::PosX(0), SharedProps::PosY(0), SharedProps::Width(0), SharedProps::Height(0)]);
}
