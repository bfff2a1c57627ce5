//! The bridge orchestrator's verified core: every event taken from the
//! link manager's channel is routed to exactly one destination — a
//! notification's payload goes to the serial-write path, every other
//! event is forwarded unchanged to the presentation layer. A failed
//! write or forward is logged by the surrounding loop and must not
//! affect what is routed afterwards, so routing depends on the events
//! alone.

use vstd::prelude::*;
use crate::ble::BleEvent;

verus! {

/// The destination of one event.
pub enum Route {
    /// Write these bytes to the local port.
    Serial(Vec<u8>),
    /// Forward this event to the presentation layer.
    Ui(BleEvent),
}

/// The event is a notification carrying sensor data.
pub open spec fn is_notification(e: BleEvent) -> bool {
    e matches BleEvent::DeviceNotification(_)
}

/// The payload of a notification; empty for any other event.
pub open spec fn notification_payload(e: BleEvent) -> Seq<u8> {
    match e {
        BleEvent::DeviceNotification(d) => d@,
        _ => Seq::empty(),
    }
}

/// Route one event: a notification's bytes go to the serial path,
/// anything else is handed on unchanged.
pub fn route_event(e: BleEvent) -> (r: Route)
    ensures
        match e {
            BleEvent::DeviceNotification(d) => r matches Route::Serial(b) && b == d,
            _ => r matches Route::Ui(u) && u == e,
        },
{
    match e {
        BleEvent::DeviceNotification(d) => Route::Serial(d),
        other => Route::Ui(other),
    }
}

/// The payloads the serial path receives from a stream of events,
/// in stream order.
pub open spec fn serial_payloads(evs: Seq<BleEvent>) -> Seq<Seq<u8>>
    decreases evs.len(),
{
    if evs.len() == 0 {
        Seq::empty()
    } else {
        let rest = serial_payloads(evs.drop_last());
        if is_notification(evs.last()) {
            rest.push(notification_payload(evs.last()))
        } else {
            rest
        }
    }
}

/// The events the presentation layer receives from a stream of
/// events, in stream order.
pub open spec fn ui_forwarded(evs: Seq<BleEvent>) -> Seq<BleEvent>
    decreases evs.len(),
{
    if evs.len() == 0 {
        Seq::empty()
    } else {
        let rest = ui_forwarded(evs.drop_last());
        if is_notification(evs.last()) {
            rest
        } else {
            rest.push(evs.last())
        }
    }
}

/// The views of routed payload buffers.
pub open spec fn payload_views(s: Seq<Vec<u8>>) -> Seq<Seq<u8>> {
    s.map_values(|b: Vec<u8>| b@)
}

/// Route a whole stream of events: the pair of the serial writes, in
/// order, and the forwarded events, in order.
pub fn route_batch(events: Vec<BleEvent>) -> (r: (Vec<Vec<u8>>, Vec<BleEvent>))
    ensures
        payload_views(r.0@) == serial_payloads(events@),
        r.1@ == ui_forwarded(events@),
{
    let ghost all = events@;
    let mut rest = events;
    let mut serial: Vec<Vec<u8>> = Vec::new();
    let mut ui: Vec<BleEvent> = Vec::new();
    let ghost done: int = 0;
    proof {
        assert(payload_views(serial@) =~= serial_payloads(all.subrange(0, 0)));
        assert(ui@ =~= ui_forwarded(all.subrange(0, 0)));
        assert(rest@ =~= all.subrange(0, all.len() as int));
    }
    while rest.len() > 0
        invariant
            0 <= done <= all.len(),
            rest@ == all.subrange(done, all.len() as int),
            payload_views(serial@) == serial_payloads(all.subrange(0, done)),
            ui@ == ui_forwarded(all.subrange(0, done)),
        decreases rest@.len(),
    {
        let e = rest.remove(0);
        let ghost prior_serial = serial@;
        let ghost prior_ui = ui@;
        proof {
            assert(e == all[done]);
            assert(all.subrange(0, done + 1).drop_last() =~= all.subrange(0, done));
            assert(all.subrange(0, done + 1).last() == all[done]);
        }
        match route_event(e) {
            Route::Serial(b) => {
                serial.push(b);
                proof {
                    assert(payload_views(serial@) =~= payload_views(prior_serial).push(b@));
                    assert(payload_views(serial@) =~= serial_payloads(
                        all.subrange(0, done + 1),
                    ));
                }
            },
            Route::Ui(u) => {
                ui.push(u);
                proof {
                    assert(ui@ =~= ui_forwarded(all.subrange(0, done + 1)));
                }
            },
        }
        proof {
            done = done + 1;
            assert(rest@ =~= all.subrange(done, all.len() as int));
        }
    }
    proof {
        assert(all.subrange(0, all.len() as int) =~= all);
    }
    (serial, ui)
}

/// Ordered, lossless delivery: the serial path receives exactly the
/// payloads of the notification events, in the order received, with
/// no drops — independent of whether any individual write succeeds —
/// and the presentation layer receives exactly the other events, in
/// order, so no notification ever reaches it.
pub proof fn lemma_lossless_ordered_delivery(evs: Seq<BleEvent>)
    ensures
        serial_payloads(evs) == evs.filter(|e: BleEvent| is_notification(e)).map_values(
            |e: BleEvent| notification_payload(e),
        ),
        ui_forwarded(evs) == evs.filter(|e: BleEvent| !is_notification(e)),
        forall|i: int|
            0 <= i < ui_forwarded(evs).len() ==> !is_notification(#[trigger] ui_forwarded(evs)[i]),
    decreases evs.len(),
{
    reveal(Seq::filter);
    if evs.len() == 0 {
        assert(serial_payloads(evs) =~= evs.filter(|e: BleEvent| is_notification(e)).map_values(
            |e: BleEvent| notification_payload(e),
        ));
        assert(ui_forwarded(evs) =~= evs.filter(|e: BleEvent| !is_notification(e)));
    } else {
        lemma_lossless_ordered_delivery(evs.drop_last());
        assert(serial_payloads(evs) =~= evs.filter(|e: BleEvent| is_notification(e)).map_values(
            |e: BleEvent| notification_payload(e),
        ));
        assert(ui_forwarded(evs) =~= evs.filter(|e: BleEvent| !is_notification(e)));
    }
}

} // verus!
