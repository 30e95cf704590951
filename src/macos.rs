//! Apple events that deliver URLs and documents to the application: which
//! events are listened for, how an event is told apart, and the one-time
//! registration of the handler that receives their arguments.

use vstd::prelude::*;
use vstd::string::StringExecFns;

verus! {

/// The direct-object parameter of an Apple event (`----`).
pub const KEY_DIRECT_OBJECT: u32 = 0x2d2d2d2d;

/// Event class and id of "get URL" (`GURL`).
pub const GURL_EVENT_CLASS: u32 = 0x4755524c;

pub const EVENT_GET_URL: u32 = 0x4755524c;

/// Event class of the core events (`aevt`).
pub const CORE_EVENT_CLASS: u32 = 0x61657674;

/// "Open documents" (`odoc`).
pub const EVENT_OPEN_DOCUMENTS: u32 = 0x6F646F63;

/// "Reopen application" (`rapp`).
pub const EVENT_REOPEN_APP: u32 = 0x72617070;

/// An Apple event to listen for: its class and its id.
#[derive(Debug, Clone, Copy, PartialEq, Eq, Structural)]
pub struct AppleEvent {
    pub class: u32,
    pub id: u32,
}

/// What an incoming event carries.
#[derive(Debug, Clone, Copy, PartialEq, Eq, Structural)]
pub enum EventKind {
    /// One URL, in its direct object.
    Url,
    /// A list of document paths, in its direct object.
    Documents,
    /// Nothing of use (reopening the application, for one).
    Other,
}

/// The event that opens URLs.
pub fn listen_url() -> (r: AppleEvent)
    ensures
        r == (AppleEvent { class: GURL_EVENT_CLASS, id: EVENT_GET_URL }),
{
    AppleEvent { class: GURL_EVENT_CLASS, id: EVENT_GET_URL }
}

/// The event that opens documents.
pub fn listen_open_documents() -> (r: AppleEvent)
    ensures
        r == (AppleEvent { class: CORE_EVENT_CLASS, id: EVENT_OPEN_DOCUMENTS }),
{
    AppleEvent { class: CORE_EVENT_CLASS, id: EVENT_OPEN_DOCUMENTS }
}

/// The event that reopens the application.
pub fn listen_reopen_app() -> (r: AppleEvent)
    ensures
        r == (AppleEvent { class: CORE_EVENT_CLASS, id: EVENT_REOPEN_APP }),
{
    AppleEvent { class: CORE_EVENT_CLASS, id: EVENT_REOPEN_APP }
}

/// Tells an incoming event apart by its class and id.
pub fn event_kind(class: u32, id: u32) -> (r: EventKind)
    ensures
        class == GURL_EVENT_CLASS && id == EVENT_GET_URL ==> r == EventKind::Url,
        class == CORE_EVENT_CLASS && id == EVENT_OPEN_DOCUMENTS ==> r == EventKind::Documents,
        !(class == GURL_EVENT_CLASS && id == EVENT_GET_URL) && !(class == CORE_EVENT_CLASS && id
            == EVENT_OPEN_DOCUMENTS) ==> r == EventKind::Other,
{
    if class == GURL_EVENT_CLASS && id == EVENT_GET_URL {
        EventKind::Url
    } else if class == CORE_EVENT_CLASS && id == EVENT_OPEN_DOCUMENTS {
        EventKind::Documents
    } else {
        EventKind::Other
    }
}

/// Why a handler could not be installed.
#[derive(Debug, Clone, Copy, PartialEq, Eq, Structural)]
pub enum HandlerError {
    /// A handler is installed already (the I/O error kind `AlreadyExists`).
    AlreadyExists,
}

impl HandlerError {
    /// The message that goes with the error.
    pub fn message(&self) -> (r: String)
        ensures
            *self == HandlerError::AlreadyExists ==> r@ == "Handler was already set"@,
    {
        match self {
            HandlerError::AlreadyExists => String::from_str("Handler was already set"),
        }
    }
}

/// Installs `handler` in `slot`, once: a second installation is refused
/// with `AlreadyExists` and leaves the first in place.
pub fn set_handler<F>(slot: &mut Option<F>, handler: F) -> (r: Result<(), HandlerError>)
    ensures
        (*old(slot)) is None ==> r is Ok && *final(slot) == Some(handler),
        (*old(slot)) is Some ==> r == Err::<(), HandlerError>(HandlerError::AlreadyExists)
            && *final(slot) == *old(slot),
{
    if slot.is_some() {
        return Err(HandlerError::AlreadyExists);
    }
    *slot = Some(handler);
    Ok(())
}

} // verus!
