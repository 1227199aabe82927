//! Alert delivery planning: which notification services a configured
//! alert goes to, with which endpoint and payload text. Performing the
//! HTTP requests is the transport collaborator's job; this module only
//! decides.

use vstd::prelude::*;
use vstd::string::*;

use crate::strings::push_char;

verus! {

/// Configuration of the notification services. A service is used when
/// all of its fields are present and non-empty.
pub struct AlertConfig {
    pub enabled: bool,
    pub telegram_bot_token: Option<String>,
    pub telegram_chat_id: Option<String>,
    pub webhook_url: Option<String>,
    pub custom_message: Option<String>,
    pub pushover_user_key: Option<String>,
    pub pushover_api_token: Option<String>,
    pub gotify_url: Option<String>,
    pub gotify_token: Option<String>,
    pub slack_webhook_url: Option<String>,
    pub discord_webhook_url: Option<String>,
    pub teams_webhook_url: Option<String>,
    pub ntfy_url: Option<String>,
    pub ntfy_token: Option<String>,
}

/// One outbound notification for the transport to perform.
pub enum Delivery {
    /// A form post to the bot API.
    Telegram { url: String, chat_id: String, text: String },
    /// A generic JSON webhook.
    Webhook { url: String, text: String },
    /// A form post to the fixed service endpoint.
    Pushover { token: String, user: String, message: String },
    /// A JSON post to the server's message endpoint.
    Gotify { url: String, message: String },
    Slack { url: String, text: String },
    Discord { url: String, content: String },
    Teams { url: String, text: String },
    /// A plain-body post, optionally bearer-authorised.
    Ntfy { url: String, body: String, bearer: Option<String> },
}

/// The field holds a non-empty value.
pub open spec fn set_nonempty(o: Option<String>) -> bool {
    match o {
        Some(s) => s@.len() > 0,
        None => false,
    }
}

/// The view of an optional field, empty when absent.
pub open spec fn opt_str(o: Option<String>) -> Seq<char> {
    match o {
        Some(s) => s@,
        None => Seq::<char>::empty(),
    }
}

/// Whether the field is present with a non-empty value.
fn opt_has_value(o: &Option<String>) -> (r: bool)
    ensures
        r == set_nonempty(*o),
{
    match o {
        Some(s) => s.as_str().unicode_len() > 0,
        None => false,
    }
}

/// `s` with every trailing slash removed.
pub open spec fn trim_end_slashes(s: Seq<char>) -> Seq<char>
    decreases s.len(),
{
    if s.len() > 0 && s.last() == '/' {
        trim_end_slashes(s.drop_last())
    } else {
        s
    }
}

/// When everything from `ix` on is a slash and the character before `ix`
/// (if any) is not, trimming keeps exactly the first `ix` characters.
proof fn lemma_trim_end_at(s: Seq<char>, ix: int)
    requires
        0 <= ix <= s.len(),
        forall|j: int| ix <= j < s.len() ==> s[j] == '/',
        ix > 0 ==> s[ix - 1] != '/',
    ensures
        trim_end_slashes(s) == s.subrange(0, ix),
    decreases s.len(),
{
    if ix == s.len() {
        if s.len() > 0 {
            assert(s.last() != '/');
        }
        assert(s.subrange(0, ix) =~= s);
    } else {
        assert(s.last() == '/');
        let dl = s.drop_last();
        lemma_trim_end_at(dl, ix);
        assert(dl.subrange(0, ix) =~= s.subrange(0, ix));
    }
}

/// The bot API endpoint for a telegram token.
pub open spec fn telegram_url_of(token: Seq<char>) -> Seq<char> {
    "https://api.telegram.org/bot"@ + token + "/sendMessage"@
}

/// The message endpoint of a gotify server: the configured base with
/// trailing slashes trimmed, plus the message route and token.
pub open spec fn gotify_url_of(base: Seq<char>, token: Seq<char>) -> Seq<char> {
    trim_end_slashes(base) + "/message?token="@ + token
}

fn telegram_url(token: &str) -> (r: String)
    ensures
        r@ == telegram_url_of(token@),
{
    let mut s = String::from_str("https://api.telegram.org/bot");
    s.append(token);
    s.append("/sendMessage");
    s
}

fn gotify_url(base: &str, token: &str) -> (r: String)
    ensures
        r@ == gotify_url_of(base@, token@),
{
    let len = base.unicode_len();
    let mut ix: usize = len;
    while ix > 0
        invariant
            ix <= len,
            len == base@.len(),
            forall|j: int| ix <= j < len ==> base@[j] == '/',
        ensures
            ix <= len,
            forall|j: int| ix <= j < len ==> base@[j] == '/',
            ix > 0 ==> base@[ix - 1] != '/',
        decreases ix,
    {
        if base.get_char(ix - 1) != '/' {
            break ;
        }
        ix = ix - 1;
    }
    proof {
        lemma_trim_end_at(base@, ix as int);
    }
    let trimmed = base.substring_char(0, ix);
    let mut s = String::from_str(trimmed);
    s.append("/message?token=");
    s.append(token);
    s
}

/// The services in the order they are attempted.
pub open spec fn slot_included(c: AlertConfig, k: int) -> bool {
    if k == 0 {
        set_nonempty(c.telegram_bot_token) && set_nonempty(c.telegram_chat_id)
    } else if k == 1 {
        set_nonempty(c.webhook_url)
    } else if k == 2 {
        set_nonempty(c.pushover_user_key) && set_nonempty(c.pushover_api_token)
    } else if k == 3 {
        set_nonempty(c.gotify_url) && set_nonempty(c.gotify_token)
    } else if k == 4 {
        set_nonempty(c.slack_webhook_url)
    } else if k == 5 {
        set_nonempty(c.discord_webhook_url)
    } else if k == 6 {
        set_nonempty(c.teams_webhook_url)
    } else if k == 7 {
        set_nonempty(c.ntfy_url)
    } else {
        false
    }
}

/// What the delivery for each service slot must hold.
pub open spec fn delivery_ok(c: AlertConfig, msg: Seq<char>, k: int, d: Delivery) -> bool {
    if k == 0 {
        match d {
            Delivery::Telegram { url, chat_id, text } => url@ == telegram_url_of(
                opt_str(c.telegram_bot_token),
            ) && chat_id@ == opt_str(c.telegram_chat_id) && text@ == msg,
            _ => false,
        }
    } else if k == 1 {
        match d {
            Delivery::Webhook { url, text } => url@ == opt_str(c.webhook_url) && text@ == msg,
            _ => false,
        }
    } else if k == 2 {
        match d {
            Delivery::Pushover { token, user, message } => token@ == opt_str(
                c.pushover_api_token,
            ) && user@ == opt_str(c.pushover_user_key) && message@ == msg,
            _ => false,
        }
    } else if k == 3 {
        match d {
            Delivery::Gotify { url, message } => url@ == gotify_url_of(
                opt_str(c.gotify_url),
                opt_str(c.gotify_token),
            ) && message@ == msg,
            _ => false,
        }
    } else if k == 4 {
        match d {
            Delivery::Slack { url, text } => url@ == opt_str(c.slack_webhook_url) && text@
                == msg,
            _ => false,
        }
    } else if k == 5 {
        match d {
            Delivery::Discord { url, content } => url@ == opt_str(c.discord_webhook_url)
                && content@ == msg,
            _ => false,
        }
    } else if k == 6 {
        match d {
            Delivery::Teams { url, text } => url@ == opt_str(c.teams_webhook_url) && text@
                == msg,
            _ => false,
        }
    } else if k == 7 {
        match d {
            Delivery::Ntfy { url, body, bearer } => url@ == opt_str(c.ntfy_url) && body@ == msg
                && (if set_nonempty(c.ntfy_token) {
                match bearer {
                    Some(b) => b@ == opt_str(c.ntfy_token),
                    None => false,
                }
            } else {
                bearer is None
            }),
            _ => false,
        }
    } else {
        false
    }
}

/// `r` is exactly the deliveries for the service slots from `k` on: one
/// per configured service, in the fixed order.
pub open spec fn plan_suffix_ok(c: AlertConfig, msg: Seq<char>, k: int, r: Seq<Delivery>) -> bool
    decreases 8 - k,
{
    if k < 0 || k >= 8 {
        r.len() == 0
    } else if slot_included(c, k) {
        &&& r.len() > 0
        &&& delivery_ok(c, msg, k, r[0])
        &&& plan_suffix_ok(c, msg, k + 1, r.subrange(1, r.len() as int))
    } else {
        plan_suffix_ok(c, msg, k + 1, r)
    }
}

/// Builds the delivery for slot `k`, when that service is configured.
fn build_slot(c: &AlertConfig, message: &str, k: usize) -> (r: Option<Delivery>)
    ensures
        r is Some <==> (k < 8 && slot_included(*c, k as int)),
        match r {
            Some(d) => delivery_ok(*c, message@, k as int, d),
            None => true,
        },
{
    if k == 0 {
        if let (Some(token), Some(chat_id)) = (&c.telegram_bot_token, &c.telegram_chat_id) {
            if token.as_str().unicode_len() > 0 && chat_id.as_str().unicode_len() > 0 {
                return Some(
                    Delivery::Telegram {
                        url: telegram_url(token.as_str()),
                        chat_id: chat_id.clone(),
                        text: String::from_str(message),
                    },
                );
            }
        }
        None
    } else if k == 1 {
        if let Some(url) = &c.webhook_url {
            if url.as_str().unicode_len() > 0 {
                return Some(
                    Delivery::Webhook { url: url.clone(), text: String::from_str(message) },
                );
            }
        }
        None
    } else if k == 2 {
        if let (Some(user), Some(token)) = (&c.pushover_user_key, &c.pushover_api_token) {
            if user.as_str().unicode_len() > 0 && token.as_str().unicode_len() > 0 {
                return Some(
                    Delivery::Pushover {
                        token: token.clone(),
                        user: user.clone(),
                        message: String::from_str(message),
                    },
                );
            }
        }
        None
    } else if k == 3 {
        if let (Some(url), Some(token)) = (&c.gotify_url, &c.gotify_token) {
            if url.as_str().unicode_len() > 0 && token.as_str().unicode_len() > 0 {
                return Some(
                    Delivery::Gotify {
                        url: gotify_url(url.as_str(), token.as_str()),
                        message: String::from_str(message),
                    },
                );
            }
        }
        None
    } else if k == 4 {
        if let Some(url) = &c.slack_webhook_url {
            if url.as_str().unicode_len() > 0 {
                return Some(
                    Delivery::Slack { url: url.clone(), text: String::from_str(message) },
                );
            }
        }
        None
    } else if k == 5 {
        if let Some(url) = &c.discord_webhook_url {
            if url.as_str().unicode_len() > 0 {
                return Some(
                    Delivery::Discord { url: url.clone(), content: String::from_str(message) },
                );
            }
        }
        None
    } else if k == 6 {
        if let Some(url) = &c.teams_webhook_url {
            if url.as_str().unicode_len() > 0 {
                return Some(
                    Delivery::Teams { url: url.clone(), text: String::from_str(message) },
                );
            }
        }
        None
    } else if k == 7 {
        if let Some(url) = &c.ntfy_url {
            if url.as_str().unicode_len() > 0 {
                let bearer: Option<String> = match &c.ntfy_token {
                    Some(t) => {
                        if t.as_str().unicode_len() > 0 {
                            Some(t.clone())
                        } else {
                            None
                        }
                    },
                    None => None,
                };
                return Some(
                    Delivery::Ntfy {
                        url: url.clone(),
                        body: String::from_str(message),
                        bearer,
                    },
                );
            }
        }
        None
    } else {
        None
    }
}

/// The deliveries from slot `k` on.
fn plan_from(c: &AlertConfig, message: &str, k: usize) -> (r: Vec<Delivery>)
    requires
        k <= 8,
    ensures
        plan_suffix_ok(*c, message@, k as int, r@),
    decreases 8 - k,
{
    if k == 8 {
        Vec::new()
    } else {
        let here = build_slot(c, message, k);
        let mut rest = plan_from(c, message, k + 1);
        match here {
            Some(d) => {
                let mut out: Vec<Delivery> = Vec::new();
                out.push(d);
                let ghost rest_view = rest@;
                out.append(&mut rest);
                proof {
                    assert(out@.subrange(1, out@.len() as int) =~= rest_view);
                }
                out
            },
            None => rest,
        }
    }
}

/// Plans an alert's outbound notifications: nothing when alerting is
/// disabled, otherwise one delivery per configured service, in the fixed
/// service order, each carrying the message and its endpoint.
pub fn plan_alerts(config: &AlertConfig, message: &str) -> (r: Vec<Delivery>)
    ensures
        !config.enabled ==> r@.len() == 0,
        config.enabled ==> plan_suffix_ok(*config, message@, 0, r@),
{
    if !config.enabled {
        return Vec::new();
    }
    plan_from(config, message, 0)
}

} // verus!
