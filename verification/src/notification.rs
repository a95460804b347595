//! Native notification model: the builder describing a notification to
//! deliver, and the classification of a user's interaction with one.
//!
//! Delivering a notification goes through the operating system's own
//! notification center; only the data carried there is modelled here.

use vstd::prelude::*;

use crate::text::decimal_chars;
use crate::text::str_eq_str;
use crate::text::u64_to_string;

verus! {

broadcast use vstd::string::group_string_axioms;

/// A notification to be delivered through the system notification center.
#[derive(Debug, Clone)]
pub struct Notification {
    /// The unique identifier for the notification.
    pub identifier: String,
    /// The localized text that provides the notification's primary description.
    pub title: Option<String>,
    /// The localized text that provides the notification's secondary description.
    pub subtitle: Option<String>,
    /// An image shown with the notification.
    pub image: Option<String>,
    /// The sound that plays when the system delivers the notification.
    pub sound: Option<String>,
    /// Whether the notification carries a reply button.
    pub reply: bool,
}

impl Default for Notification {
    /// The empty notification: no identifier, no texts, no reply button.
    fn default() -> (r: Self)
        ensures
            r.identifier@ == Seq::<char>::empty(),
            r.title is None,
            r.subtitle is None,
            r.image is None,
            r.sound is None,
            r.reply == false,
    {
        Notification {
            identifier: String::new(),
            title: None,
            subtitle: None,
            image: None,
            sound: None,
            reply: false,
        }
    }
}

impl Notification {
    /// A fresh, empty notification.
    pub fn new() -> (r: Self)
        ensures
            r.identifier@ == Seq::<char>::empty(),
            r.title is None,
            r.subtitle is None,
            r.image is None,
            r.sound is None,
            r.reply == false,
    {
        Self::default()
    }

    /// Sets the primary text; every other field is kept.
    pub fn title(self, title: &str) -> (r: Self)
        ensures
            r.title matches Some(t) && t@ == title@,
            r.identifier == self.identifier,
            r.subtitle == self.subtitle,
            r.image == self.image,
            r.sound == self.sound,
            r.reply == self.reply,
    {
        Notification { title: Some(title.to_owned()), ..self }
    }

    /// Sets the secondary text; every other field is kept.
    pub fn subtitle(self, subtitle: &str) -> (r: Self)
        ensures
            r.subtitle matches Some(t) && t@ == subtitle@,
            r.identifier == self.identifier,
            r.title == self.title,
            r.image == self.image,
            r.sound == self.sound,
            r.reply == self.reply,
    {
        Notification { subtitle: Some(subtitle.to_owned()), ..self }
    }

    /// Sets the image; every other field is kept.
    pub fn image(self, image: &str) -> (r: Self)
        ensures
            r.image matches Some(t) && t@ == image@,
            r.identifier == self.identifier,
            r.title == self.title,
            r.subtitle == self.subtitle,
            r.sound == self.sound,
            r.reply == self.reply,
    {
        Notification { image: Some(image.to_owned()), ..self }
    }

    /// Sets the delivery sound; every other field is kept.
    pub fn sound(self, sound: &str) -> (r: Self)
        ensures
            r.sound matches Some(t) && t@ == sound@,
            r.identifier == self.identifier,
            r.title == self.title,
            r.subtitle == self.subtitle,
            r.image == self.image,
            r.reply == self.reply,
    {
        Notification { sound: Some(sound.to_owned()), ..self }
    }

    /// Sets whether a reply button is shown; every other field is kept.
    pub fn reply(self, reply: bool) -> (r: Self)
        ensures
            r.reply == reply,
            r.identifier == self.identifier,
            r.title == self.title,
            r.subtitle == self.subtitle,
            r.image == self.image,
            r.sound == self.sound,
    {
        Notification { reply, ..self }
    }
}

/// Response from the notification.
#[derive(Debug)]
pub enum NotificationResponse {
    /// No interaction has occurred.
    NoInteraction,
    /// User clicked on an action button with the given name.
    ActionButton(String),
    /// User clicked on the close button with the given name.
    CloseButton(String),
    /// User clicked the notification directly.
    Click,
    /// User submitted text to the input text field.
    Reply(String),
}

/// The text carried by an interaction, the empty string when none was given.
pub open spec fn interaction_text(value: Option<String>) -> Seq<char> {
    match value {
        Some(s) => s@,
        None => Seq::<char>::empty(),
    }
}

impl NotificationResponse {
    /// Classifies a user interaction reported by the notification center,
    /// given the activation kind and the activation text it carries.
    pub fn from_activation(action: &str, value: Option<String>) -> (r: Self)
        requires
            action@ == "actionClicked"@ || action@ == "replied"@ || action@
                == "contentsClicked"@,
        ensures
            action@ == "actionClicked"@ ==> (r matches NotificationResponse::ActionButton(v)
                && v@ == interaction_text(value)),
            action@ == "replied"@ ==> (r matches NotificationResponse::Reply(v) && v@
                == interaction_text(value)),
            action@ == "contentsClicked"@ ==> r is Click,
    {
        proof {
            reveal_strlit("actionClicked");
            reveal_strlit("replied");
            reveal_strlit("contentsClicked");
            assert("actionClicked"@.len() == 13);
            assert("replied"@.len() == 7);
            assert("contentsClicked"@.len() == 15);
        }
        if str_eq_str(action, "actionClicked") {
            NotificationResponse::ActionButton(unwrap_or_empty(value))
        } else if str_eq_str(action, "replied") {
            NotificationResponse::Reply(unwrap_or_empty(value))
        } else {
            NotificationResponse::Click
        }
    }
}

/// The action name reported to the UI for a notification interaction.
pub fn interaction_action(response: &NotificationResponse) -> (r: &'static str)
    ensures
        r@ == match *response {
            NotificationResponse::Click => "click"@,
            NotificationResponse::Reply(_) => "reply"@,
            NotificationResponse::CloseButton(_) => "close"@,
            NotificationResponse::ActionButton(_) => "other"@,
            NotificationResponse::NoInteraction => "none"@,
        },
{
    match response {
        NotificationResponse::Click => "click",
        NotificationResponse::Reply(_) => "reply",
        NotificationResponse::CloseButton(_) => "close",
        NotificationResponse::ActionButton(_) => "other",
        NotificationResponse::NoInteraction => "none",
    }
}

/// The badge label for an unread count: the decimal rendering of the
/// count when it is positive, no label at zero.
pub fn badge_label(count: u32) -> (r: Option<String>)
    ensures
        count == 0 ==> r is None,
        count > 0 ==> (r matches Some(s) && s@ == decimal_chars(count as nat)),
{
    if count > 0 {
        Some(u64_to_string(count as u64))
    } else {
        None
    }
}

/// The carried text itself, or a fresh empty string when none was given.
fn unwrap_or_empty(value: Option<String>) -> (r: String)
    ensures
        r@ == interaction_text(value),
{
    match value {
        Some(s) => s,
        None => String::new(),
    }
}

} // verus!
