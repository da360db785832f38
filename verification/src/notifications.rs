//! What to tell the operators, and how to word it for each way of telling
//! them. Delivering the messages is left to whoever drives this.

use vstd::prelude::*;
use vstd::string::*;
use crate::config::{get_text, require_text, text_property, NotificationConfig, PropertyValue};
use crate::error::DoomsdayError;
use crate::text::{concat, concat3, decimal, decimal_string, str_eq};
use crate::types::{clone_text, items_view, text_view, CacheItem, CacheItemView};

verus! {

/// How urgent a message is.
#[derive(Clone, Copy, Debug, PartialEq, Eq, Structural)]
pub enum NotificationUrgency {
    Low,
    Normal,
    High,
    Critical,
}

/// A message for the operators, with the certificates it is about.
#[derive(Debug)]
pub struct NotificationMessage {
    pub title: String,
    pub body: String,
    pub urgency: NotificationUrgency,
    pub certificates: Vec<CacheItem>,
}

/// Whether a certificate that expires at `not_after` has expired at `now`.
pub open spec fn has_expired(item: CacheItemView, now: int) -> bool {
    item.not_after < now
}

/// Whether a certificate that expires at `not_after` will do so in one to
/// thirty whole days from `now`.
pub open spec fn expires_soon(item: CacheItemView, now: int) -> bool {
    86400 <= item.not_after - now < 2678400
}

/// The body of the message about `n` expired certificates.
pub open spec fn expired_body(n: nat, url: Seq<char>) -> Seq<char> {
    decimal(n) + " certificate(s) have expired. Please check "@ + url + " for details."@
}

/// The body of the message about `n` certificates that expire soon.
pub open spec fn expiring_body(n: nat, url: Seq<char>) -> Seq<char> {
    decimal(n) + " certificate(s) will expire within 30 days. Please check "@ + url
        + " for details."@
}

/// The colour that marks an urgency in Slack.
pub open spec fn slack_color(urgency: NotificationUrgency) -> Seq<char> {
    match urgency {
        NotificationUrgency::Low => "#36a64f"@,
        NotificationUrgency::Normal => "#2196F3"@,
        NotificationUrgency::High => "#ff9800"@,
        NotificationUrgency::Critical => "#f44336"@,
    }
}

/// The word for an urgency in Shout.
pub open spec fn shout_urgency(urgency: NotificationUrgency) -> Seq<char> {
    match urgency {
        NotificationUrgency::Low => "low"@,
        NotificationUrgency::Normal => "normal"@,
        NotificationUrgency::High => "high"@,
        NotificationUrgency::Critical => "critical"@,
    }
}

/// The test for certificates that have expired at `now`.
pub open spec fn expired_at(now: int) -> spec_fn(CacheItemView) -> bool {
    |c: CacheItemView| has_expired(c, now)
}

/// The test for certificates that expire in one to thirty whole days from
/// `now`.
pub open spec fn expiring_at(now: int) -> spec_fn(CacheItemView) -> bool {
    |c: CacheItemView| expires_soon(c, now)
}

fn select_items(items: &Vec<CacheItem>, now: i64, soon: bool, Ghost(keep): Ghost<
    spec_fn(CacheItemView) -> bool,
>) -> (out: Vec<CacheItem>)
    requires
        keep == if soon {
            expiring_at(now as int)
        } else {
            expired_at(now as int)
        },
    ensures
        items_view(out@) == items_view(items@).filter(keep),
{
    let ghost views = items_view(items@);
    let mut out: Vec<CacheItem> = Vec::new();
    let mut i: usize = 0;
    proof {
        assert(views.take(0).filter(keep) =~= Seq::<CacheItemView>::empty()) by {
            reveal(Seq::filter);
        }
        assert(items_view(out@) =~= Seq::<CacheItemView>::empty());
    }
    while i < items.len()
        invariant
            i <= items.len(),
            views == items_view(items@),
            keep == if soon {
                expiring_at(now as int)
            } else {
                expired_at(now as int)
            },
            items_view(out@) == views.take(i as int).filter(keep),
        decreases items.len() - i,
    {
        let diff: i128 = items[i].not_after as i128 - now as i128;
        let wanted = if soon {
            86400 <= diff && diff < 2678400
        } else {
            diff < 0
        };
        proof {
            let v = views[i as int];
            assert(v.not_after == items@[i as int].not_after);
            assert(wanted == keep(v));
            assert(views.take(i + 1) =~= views.take(i as int).push(v));
            views.take(i as int).lemma_filter_push(v, keep);
        }
        if wanted {
            let item = items[i].clone();
            proof {
                assert(items_view(out@.push(item)) =~= items_view(out@).push(item@));
            }
            out.push(item);
        }
        i += 1;
    }
    proof {
        assert(views.take(i as int) =~= views);
    }
    out
}

/// The certificates among `items` that have expired at `now`.
pub fn expired_items(items: &Vec<CacheItem>, now: i64) -> (out: Vec<CacheItem>)
    ensures
        items_view(out@) == items_view(items@).filter(expired_at(now as int)),
{
    select_items(items, now, false, Ghost(expired_at(now as int)))
}

/// The certificates among `items` that expire in one to thirty whole days
/// from `now`.
pub fn expiring_items(items: &Vec<CacheItem>, now: i64) -> (out: Vec<CacheItem>)
    ensures
        items_view(out@) == items_view(items@).filter(expiring_at(now as int)),
{
    select_items(items, now, true, Ghost(expiring_at(now as int)))
}

/// The settings of the Slack way.
#[derive(Debug)]
pub struct SlackNotificationBackend {
    pub webhook_url: String,
    pub channel: Option<String>,
    pub username: Option<String>,
}

/// One field of a Slack attachment.
#[derive(Debug)]
pub struct SlackField {
    pub title: String,
    pub value: String,
    pub short: bool,
}

/// The attachment of a Slack message.
#[derive(Debug)]
pub struct SlackAttachment {
    pub color: String,
    pub text: String,
    pub fields: Vec<SlackField>,
    pub footer: String,
    pub ts: i64,
}

/// What is posted to a Slack webhook.
#[derive(Debug)]
pub struct SlackPayload {
    pub text: String,
    pub attachments: Vec<SlackAttachment>,
    pub channel: Option<String>,
    pub username: Option<String>,
}

/// The text of a count of certificates.
pub open spec fn count_text(n: nat) -> Seq<char> {
    decimal(n) + " certificates"@
}

/// The fields of a Slack attachment about `expired` expired certificates
/// and `expiring` others, as titles with values: each count that is not zero.
pub open spec fn slack_fields(expired: nat, expiring: nat) -> Seq<(Seq<char>, Seq<char>)> {
    (if expired > 0 {
        seq![("Expired"@, count_text(expired))]
    } else {
        Seq::empty()
    }) + (if expiring > 0 {
        seq![("Expiring Soon"@, count_text(expiring))]
    } else {
        Seq::empty()
    })
}

/// The views of a sequence of fields.
pub open spec fn fields_view(s: Seq<SlackField>) -> Seq<(Seq<char>, Seq<char>)> {
    s.map_values(|f: SlackField| (f.title@, f.value@))
}

impl SlackNotificationBackend {
    pub fn new(webhook_url: String, channel: Option<String>, username: Option<String>) -> (r: Self)
        ensures
            r == (SlackNotificationBackend { webhook_url, channel, username }),
    {
        SlackNotificationBackend { webhook_url, channel, username }
    }

    /// The settings in `properties`: `webhook_url`, which must be there, and
    /// optionally `channel` and `username`.
    pub fn from_config(properties: &Vec<(String, PropertyValue)>) -> (r: Result<Self, DoomsdayError>)
        ensures
            match r {
                Ok(b) => text_property(properties@, "webhook_url"@) == Some(b.webhook_url@)
                    && text_view(b.channel) == text_property(properties@, "channel"@) && text_view(
                    b.username,
                ) == text_property(properties@, "username"@),
                Err(e) => e matches DoomsdayError::Config(m) && m@
                    == "Slack webhook_url is required"@ && text_property(
                    properties@,
                    "webhook_url"@,
                ) is None,
            },
    {
        let webhook_url = match require_text(
            properties,
            "webhook_url",
            "Slack webhook_url is required",
        ) {
            Ok(v) => v,
            Err(e) => {
                return Err(e);
            },
        };
        let channel = match get_text(properties, "channel") {
            Some(s) => Some(String::from_str(s)),
            None => None,
        };
        let username = match get_text(properties, "username") {
            Some(s) => Some(String::from_str(s)),
            None => None,
        };
        Ok(SlackNotificationBackend::new(String::from_str(webhook_url), channel, username))
    }

    /// What to post for `message` at the instant `now`: the title as text,
    /// and one attachment in the colour of the urgency with the body, the counts
    /// of expired and other certificates, the footer and the instant; channel
    /// and user name where they are set.
    pub fn payload(&self, message: &NotificationMessage, now: i64) -> (r: SlackPayload)
        ensures
            r.text@ == message.title@,
            text_view(r.channel) == text_view(self.channel),
            text_view(r.username) == text_view(self.username),
            r.attachments@.len() == 1,
            r.attachments@[0].color@ == slack_color(message.urgency),
            r.attachments@[0].text@ == message.body@,
            r.attachments@[0].footer@ == "Doomsday Certificate Monitor"@,
            r.attachments@[0].ts == now,
            fields_view(r.attachments@[0].fields@) == slack_fields(
                items_view(message.certificates@).filter(expired_at(now as int)).len(),
                (message.certificates@.len() - items_view(message.certificates@).filter(
                    expired_at(now as int),
                ).len()) as nat,
            ),
            forall|i: int|
                0 <= i < r.attachments@[0].fields@.len()
                    ==> (#[trigger] r.attachments@[0].fields@[i]).short,
    {
        let color = match message.urgency {
            NotificationUrgency::Low => "#36a64f",
            NotificationUrgency::Normal => "#2196F3",
            NotificationUrgency::High => "#ff9800",
            NotificationUrgency::Critical => "#f44336",
        };
        let ghost views = items_view(message.certificates@);
        let ghost gone = expired_at(now as int);
        let mut expired_count: usize = 0;
        let mut i: usize = 0;
        proof {
            assert(views.take(0).filter(gone) =~= Seq::<CacheItemView>::empty()) by {
                reveal(Seq::filter);
            }
        }
        while i < message.certificates.len()
            invariant
                i <= message.certificates.len(),
                views == items_view(message.certificates@),
                gone == expired_at(now as int),
                expired_count == views.take(i as int).filter(gone).len(),
                expired_count <= i,
            decreases message.certificates.len() - i,
        {
            proof {
                let v = views[i as int];
                assert(v.not_after == message.certificates@[i as int].not_after);
                assert(views.take(i + 1) =~= views.take(i as int).push(v));
                views.take(i as int).lemma_filter_push(v, gone);
            }
            if message.certificates[i].not_after < now {
                expired_count += 1;
            }
            i += 1;
        }
        proof {
            assert(views.take(i as int) =~= views);
        }
        let expiring_count: usize = message.certificates.len() - expired_count;
        let mut fields: Vec<SlackField> = Vec::new();
        if expired_count > 0 {
            let count = decimal_string(expired_count as u64);
            fields.push(
                SlackField {
                    title: String::from_str("Expired"),
                    value: concat(count.as_str(), " certificates"),
                    short: true,
                },
            );
        }
        if expiring_count > 0 {
            let count = decimal_string(expiring_count as u64);
            fields.push(
                SlackField {
                    title: String::from_str("Expiring Soon"),
                    value: concat(count.as_str(), " certificates"),
                    short: true,
                },
            );
        }
        proof {
            assert(fields_view(fields@) =~= slack_fields(
                expired_count as nat,
                expiring_count as nat,
            ));
        }
        let mut attachments: Vec<SlackAttachment> = Vec::new();
        attachments.push(
            SlackAttachment {
                color: String::from_str(color),
                text: message.body.clone(),
                fields,
                footer: String::from_str("Doomsday Certificate Monitor"),
                ts: now,
            },
        );
        SlackPayload {
            text: message.title.clone(),
            attachments,
            channel: clone_text(&self.channel),
            username: clone_text(&self.username),
        }
    }

    /// What the webhook's answer means: an internal error that quotes the
    /// status where it is no success.
    pub fn check_response(success: bool, status: &str) -> (r: Result<(), DoomsdayError>)
        ensures
            match r {
                Ok(_) => success,
                Err(e) => e matches DoomsdayError::Internal(m) && m@
                    == "Slack notification failed: "@ + status@ && !success,
            },
    {
        if success {
            Ok(())
        } else {
            let msg = concat("Slack notification failed: ", status);
            Err(DoomsdayError::internal(msg.as_str()))
        }
    }
}

/// The settings of the Shout way.
#[derive(Debug)]
pub struct ShoutNotificationBackend {
    pub url: String,
}

/// What is posted to Shout.
#[derive(Debug)]
pub struct ShoutPayload {
    pub title: String,
    pub body: String,
    pub urgency: String,
    pub certificates: usize,
    pub timestamp: String,
}

impl ShoutNotificationBackend {
    pub fn new(url: String) -> (r: Self)
        ensures
            r == (ShoutNotificationBackend { url }),
    {
        ShoutNotificationBackend { url }
    }

    /// The settings in `properties`: `url`, which must be there.
    pub fn from_config(properties: &Vec<(String, PropertyValue)>) -> (r: Result<Self, DoomsdayError>)
        ensures
            match r {
                Ok(b) => text_property(properties@, "url"@) == Some(b.url@),
                Err(e) => e matches DoomsdayError::Config(m) && m@ == "Shout URL is required"@
                    && text_property(properties@, "url"@) is None,
            },
    {
        match require_text(properties, "url", "Shout URL is required") {
            Ok(url) => Ok(ShoutNotificationBackend::new(String::from_str(url))),
            Err(e) => Err(e),
        }
    }

    /// What to post for `message`, where `timestamp` is the current instant
    /// as text.
    pub fn payload(&self, message: &NotificationMessage, timestamp: String) -> (r: ShoutPayload)
        ensures
            r.title@ == message.title@,
            r.body@ == message.body@,
            r.urgency@ == shout_urgency(message.urgency),
            r.certificates == message.certificates@.len(),
            r.timestamp == timestamp,
    {
        let urgency = match message.urgency {
            NotificationUrgency::Low => "low",
            NotificationUrgency::Normal => "normal",
            NotificationUrgency::High => "high",
            NotificationUrgency::Critical => "critical",
        };
        ShoutPayload {
            title: message.title.clone(),
            body: message.body.clone(),
            urgency: String::from_str(urgency),
            certificates: message.certificates.len(),
            timestamp,
        }
    }

    /// What Shout's answer means: an internal error that quotes the status
    /// where it is no success.
    pub fn check_response(success: bool, status: &str) -> (r: Result<(), DoomsdayError>)
        ensures
            match r {
                Ok(_) => success,
                Err(e) => e matches DoomsdayError::Internal(m) && m@
                    == "Shout notification failed: "@ + status@ && !success,
            },
    {
        if success {
            Ok(())
        } else {
            let msg = concat("Shout notification failed: ", status);
            Err(DoomsdayError::internal(msg.as_str()))
        }
    }
}

/// A way of telling the operators, of one of the two kinds.
#[derive(Debug)]
pub enum NotificationBackendKind {
    Slack(SlackNotificationBackend),
    Shout(ShoutNotificationBackend),
}

/// The way of the kind that `backend_type` names, with the settings in
/// `properties`; any other type is a configuration error.
pub fn create_notification_backend(
    backend_type: &str,
    properties: &Vec<(String, PropertyValue)>,
) -> (r: Result<NotificationBackendKind, DoomsdayError>)
    ensures
        match r {
            Ok(NotificationBackendKind::Slack(b)) => backend_type@ == "slack"@ && text_property(
                properties@,
                "webhook_url"@,
            ) == Some(b.webhook_url@),
            Ok(NotificationBackendKind::Shout(b)) => backend_type@ == "shout"@ && text_property(
                properties@,
                "url"@,
            ) == Some(b.url@),
            Err(e) => e matches DoomsdayError::Config(m) && if backend_type@ == "slack"@ {
                m@ == "Slack webhook_url is required"@
            } else if backend_type@ == "shout"@ {
                m@ == "Shout URL is required"@
            } else {
                m@ == "Unknown notification backend: "@ + backend_type@
            },
        },
{
    proof {
        reveal_strlit("slack");
        reveal_strlit("shout");
    }
    if str_eq(backend_type, "slack") {
        match SlackNotificationBackend::from_config(properties) {
            Ok(b) => Ok(NotificationBackendKind::Slack(b)),
            Err(e) => Err(e),
        }
    } else if str_eq(backend_type, "shout") {
        match ShoutNotificationBackend::from_config(properties) {
            Ok(b) => Ok(NotificationBackendKind::Shout(b)),
            Err(e) => Err(e),
        }
    } else {
        let msg = concat("Unknown notification backend: ", backend_type);
        Err(DoomsdayError::config(msg.as_str()))
    }
}

/// What decides which messages go out.
#[derive(Debug)]
pub struct NotificationService {
    pub backend: NotificationBackendKind,
    pub doomsday_url: String,
}

impl NotificationService {
    /// The service that the configuration `config` describes.
    pub fn new(config: &NotificationConfig) -> (r: Result<Self, DoomsdayError>)
        ensures
            match r {
                Ok(s) => s.doomsday_url@ == config.doomsday_url@ && match s.backend {
                    NotificationBackendKind::Slack(b) => config.backend.backend_type@ == "slack"@
                        && text_property(config.backend.properties@, "webhook_url"@) == Some(
                        b.webhook_url@,
                    ),
                    NotificationBackendKind::Shout(b) => config.backend.backend_type@ == "shout"@
                        && text_property(config.backend.properties@, "url"@) == Some(b.url@),
                },
                Err(e) => e matches DoomsdayError::Config(m) && if config.backend.backend_type@
                    == "slack"@ {
                    m@ == "Slack webhook_url is required"@
                } else if config.backend.backend_type@ == "shout"@ {
                    m@ == "Shout URL is required"@
                } else {
                    m@ == "Unknown notification backend: "@ + config.backend.backend_type@
                },
            },
    {
        match create_notification_backend(
            config.backend.backend_type.as_str(),
            &config.backend.properties,
        ) {
            Ok(backend) => Ok(
                NotificationService { backend, doomsday_url: config.doomsday_url.clone() },
            ),
            Err(e) => Err(e),
        }
    }

    /// The messages to send about `certificates` at the instant `now`: one,
    /// critical, about those that have expired, if there are any; then one, of
    /// high urgency, about those that expire in one to thirty days, if there
    /// are any.
    pub fn check_and_notify(&self, certificates: &Vec<CacheItem>, now: i64) -> (r: Vec<
        NotificationMessage,
    >)
        ensures
            ({
                let expired = items_view(certificates@).filter(expired_at(now as int));
                let expiring = items_view(certificates@).filter(expiring_at(now as int));
                &&& r@.len() == (if expired.len() > 0 {
                    1int
                } else {
                    0int
                }) + (if expiring.len() > 0 {
                    1int
                } else {
                    0int
                })
                &&& expired.len() > 0 ==> r@[0].urgency == NotificationUrgency::Critical
                    && r@[0].title@ == "⚠️ Expired Certificates"@ && r@[0].body@ == expired_body(
                    expired.len(),
                    self.doomsday_url@,
                ) && items_view(r@[0].certificates@) == expired
                &&& expiring.len() > 0 ==> r@.last().urgency == NotificationUrgency::High
                    && r@.last().title@ == "⏰ Certificates Expiring Soon"@ && r@.last().body@
                    == expiring_body(expiring.len(), self.doomsday_url@) && items_view(
                    r@.last().certificates@,
                ) == expiring
            }),
    {
        let expired = expired_items(certificates, now);
        let expiring_soon = expiring_items(certificates, now);
        let mut out: Vec<NotificationMessage> = Vec::new();
        if expired.len() > 0 {
            let count = decimal_string(expired.len() as u64);
            let front = concat(count.as_str(), " certificate(s) have expired. Please check ");
            out.push(
                NotificationMessage {
                    title: String::from_str("⚠️ Expired Certificates"),
                    body: concat3(front.as_str(), self.doomsday_url.as_str(), " for details."),
                    urgency: NotificationUrgency::Critical,
                    certificates: expired,
                },
            );
        }
        if expiring_soon.len() > 0 {
            let count = decimal_string(expiring_soon.len() as u64);
            let front = concat(
                count.as_str(),
                " certificate(s) will expire within 30 days. Please check ",
            );
            out.push(
                NotificationMessage {
                    title: String::from_str("⏰ Certificates Expiring Soon"),
                    body: concat3(front.as_str(), self.doomsday_url.as_str(), " for details."),
                    urgency: NotificationUrgency::High,
                    certificates: expiring_soon,
                },
            );
        }
        out
    }
}

} // verus!
