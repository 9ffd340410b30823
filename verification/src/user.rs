//! User and reminder records.

use vstd::prelude::*;

verus! {

/// A stored user.
#[derive(Clone, Debug, PartialEq, Eq)]
pub struct User {
    pub id: i64,
    pub external_id: Option<String>,
    pub name: String,
}

/// A request to create or rename a user.
#[derive(Clone, Debug)]
pub struct CreateOrUpdateUserRequest {
    pub name: String,
    pub external_id: String,
}

/// The channel a reminder is delivered on.
#[derive(Clone, Copy, Debug, PartialEq, Eq, Structural)]
pub enum ReminderType {
    Email,
    SMS,
    WhatsApp,
    Telegram,
    Notification,
}

/// A stored reminder: a contact is notified some minutes before an event.
#[derive(Clone, Debug, PartialEq, Eq)]
pub struct Reminder {
    pub id: i64,
    pub event_id: i64,
    pub user_contact_id: i64,
    pub reminder_type: ReminderType,
    pub minutes_before: i32,
}

/// A request to attach a reminder to an event for a contact.
#[derive(Clone, Debug)]
pub struct AddReminderRequest {
    pub reminder_type: ReminderType,
    pub minutes_before: i32,
}

} // verus!
