//! Notifications to the user. The interface installs a handler, once; until then notifications
//! go to the log.
use crate::path::{path_text, LocalPath};
use crate::text::{holds, lemma_parts_are_held};
use vstd::prelude::*;

verus! {

/// Where a notification goes.
#[derive(Debug)]
pub enum Delivery<'a, H> {
    /// The handler has to be called with the title and the message.
    Handler(&'a H, String, String),
    /// No handler is installed: the title and the message go to the log.
    Log(String, String),
}

/// Where a notification with this title and message goes, given the installed handler.
pub open spec fn goes_to<H>(
    delivery: Delivery<'_, H>,
    handler: Option<H>,
    title: Seq<char>,
    message: Seq<char>,
) -> bool {
    match delivery {
        Delivery::Handler(called, t, m) => handler == Some(*called) && t@ == title && m@ == message,
        Delivery::Log(t, m) => handler is None && t@ == title && m@ == message,
    }
}

/// Installs `handler`. The first one stays: a later one is dropped.
pub fn set_notification_handler<H>(slot: &mut Option<H>, handler: H)
    ensures
        *final(slot) == (match *old(slot) {
            Some(installed) => Some(installed),
            None => Some(handler),
        }),
{
    if slot.is_none() {
        *slot = Some(handler);
    }
}

/// A notification of any kind.
pub fn send_general_text_toast<'a, H>(
    slot: &'a Option<H>,
    title: &str,
    message: &str,
) -> (delivery: Delivery<'a, H>)
    ensures
        goes_to(delivery, *slot, title@, message@),
{
    match slot {
        Some(handler) => Delivery::Handler(handler, title.to_owned(), message.to_owned()),
        None => Delivery::Log(title.to_owned(), message.to_owned()),
    }
}

/// A warning.
pub fn send_warning_toast<'a, H>(
    slot: &'a Option<H>,
    title: &str,
    message: &str,
) -> (delivery: Delivery<'a, H>)
    ensures
        goes_to(delivery, *slot, title@, message@),
{
    send_general_text_toast(slot, title, message)
}

/// A warning that credentials expire. `notify` is the setting of the user, where one is loaded;
/// only a setting of false holds the warning back.
pub fn send_token_expiry_toast<'a, H>(
    slot: &'a Option<H>,
    notify: Option<bool>,
    title: &str,
    message: &str,
) -> (delivery: Option<Delivery<'a, H>>)
    ensures
        match delivery {
            Some(delivery) => notify != Some(false) && goes_to(delivery, *slot, title@, message@),
            None => notify == Some(false),
        },
{
    if let Some(wanted) = notify {
        if !wanted {
            return None;
        }
    }
    Some(send_warning_toast(slot, title, message))
}

/// The text that tells of a file that could not be uploaded.
pub open spec fn conflict_text(path: Seq<Seq<char>>) -> Seq<char> {
    path_text(path)
        + " could not be uploaded. Both versions have been preserved; sync again to reconcile."@
}

/// A warning of a conflict at `path`. `notify` is the setting of the user, where one is loaded;
/// only a setting of false holds the warning back.
pub fn send_conflict_toast<'a, H>(
    slot: &'a Option<H>,
    notify: Option<bool>,
    path: &LocalPath,
) -> (delivery: Option<Delivery<'a, H>>)
    ensures
        match delivery {
            Some(delivery) => notify != Some(false) && goes_to(
                delivery,
                *slot,
                "Sync conflict"@,
                conflict_text(path@),
            ),
            None => notify == Some(false),
        },
{
    if let Some(wanted) = notify {
        if !wanted {
            return None;
        }
    }
    let message = path.text().concat(
        " could not be uploaded. Both versions have been preserved; sync again to reconcile.",
    );
    Some(send_warning_toast(slot, "Sync conflict", message.as_str()))
}

/// The first handler that is installed gets every notification, with its title and its message; a
/// notification is held back only where the user has switched it off.
pub proof fn lemma_notifications_are_delivered<H>(
    slot: &Option<H>,
    notify: Option<bool>,
    title: &str,
    message: &str,
    general: Delivery<H>,
    expiry: Option<Delivery<H>>,
)
    requires
        call_ensures(send_general_text_toast::<H>, (slot, title, message), general),
        call_ensures(send_token_expiry_toast::<H>, (slot, notify, title, message), expiry),
    ensures
        *slot matches Some(handler) ==> (general matches Delivery::Handler(called, t, m) && *called
            == handler && t@ == title@ && m@ == message@),
        *slot is None ==> (general matches Delivery::Log(t, m) && t@ == title@ && m@ == message@),
        expiry is None <==> notify == Some(false),
        *slot matches Some(handler) ==> (expiry matches Some(Delivery::Handler(called, t, m))
            ==> *called == handler && t@ == title@ && m@ == message@),
{
}

/// A conflict is told with its path, and goes where every other notification goes; only the user holds
/// it back.
pub proof fn lemma_conflicts_are_told<H>(
    slot: &Option<H>,
    notify: Option<bool>,
    path: &LocalPath,
    told: Option<Delivery<H>>,
)
    requires
        call_ensures(send_conflict_toast::<H>, (slot, notify, path), told),
    ensures
        told is None <==> notify == Some(false),
        *slot is Some ==> (told matches Some(Delivery::Handler(called, _, m)) ==> *called == slot->0
            && holds(m@, path_text(path@))),
        told matches Some(Delivery::Log(_, m)) ==> *slot is None && holds(m@, path_text(path@)),
        told is Some && *slot is Some ==> told->0 is Handler,
{
    lemma_parts_are_held(
        Seq::empty(),
        path_text(path@),
        " could not be uploaded. Both versions have been preserved; sync again to reconcile."@,
    );
}

} // verus!
