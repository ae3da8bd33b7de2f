use vstd::prelude::*;
use crate::text::{decimal, padded_decimal, push_decimal, push_padded_decimal, parse_u32, parsed_u32};

verus! {

/// Milliseconds since a reader's last message after which it shows as slow.
pub const DEFAULT_WARN_MS: u32 = 5_000;

/// Milliseconds since a reader's last message after which it shows as stalled.
pub const DEFAULT_BAD_MS: u32 = 10_000;

/// When a reader turns from healthy to slow (`warn_ms`) and from slow to
/// stalled (`bad_ms`), in milliseconds since its last message.
#[derive(Clone, Copy, Debug)]
pub struct HealthThresholds {
    pub warn_ms: u32,
    pub bad_ms: u32,
}

impl Default for HealthThresholds {
    /// The thresholds in force until the server's are loaded.
    fn default() -> (t: Self)
        ensures
            t.warn_ms == DEFAULT_WARN_MS,
            t.bad_ms == DEFAULT_BAD_MS,
    {
        HealthThresholds { warn_ms: DEFAULT_WARN_MS, bad_ms: DEFAULT_BAD_MS }
    }
}

/// `"<m>m <ss>s"`: minutes, then seconds as two digits.
pub open spec fn remaining_text(secs: nat) -> Seq<char> {
    decimal(secs / 60) + "m "@ + padded_decimal(secs % 60, 2) + "s"@
}

/// The time left in a write window, as `"<m>m <ss>s"`.
pub fn format_remaining(secs: u64) -> (s: String)
    ensures
        s@ == remaining_text(secs as nat),
{
    let mut s = String::new();
    push_decimal(&mut s, secs / 60);
    s.append("m ");
    push_padded_decimal(&mut s, secs % 60, 2);
    s.append("s");
    proof {
        assert(s@ =~= remaining_text(secs as nat));
    }
    s
}

/// The line under a card: a confirmation, an error, or nothing.
pub enum FooterLine {
    Success(String),
    Failure(String),
    Nothing,
}

/// The confirmation when there is one, else the error when there is one.
pub fn footer_line(message: &Option<String>, error: &Option<String>) -> (r: FooterLine)
    ensures
        match *message {
            Some(m) => r matches FooterLine::Success(x) && x@ == m@,
            None => match *error {
                Some(e) => r matches FooterLine::Failure(x) && x@ == e@,
                None => r is Nothing,
            },
        },
{
    match message {
        Some(m) => FooterLine::Success(m.clone()),
        None => match error {
            Some(e) => FooterLine::Failure(e.clone()),
            None => FooterLine::Nothing,
        },
    }
}

/// The health thresholds form.
pub struct SettingsState {
    pub warn_ms: String,
    pub bad_ms: String,
    pub saving: bool,
    pub message: Option<String>,
    pub error: Option<String>,
}

/// Message for a field that is not a whole number of milliseconds.
pub open spec fn not_numbers_message() -> Seq<char> {
    "Both fields must be positive whole numbers (ms)."@
}

/// Message for thresholds in the wrong order.
pub open spec fn order_message() -> Seq<char> {
    "Green\u{2192}Yellow threshold must be smaller than Yellow\u{2192}Red."@
}

impl Default for SettingsState {
    /// An empty form.
    fn default() -> (s: Self)
        ensures
            s.warn_ms@.len() == 0,
            s.bad_ms@.len() == 0,
            !s.saving,
            s.message is None,
            s.error is None,
    {
        SettingsState { warn_ms: String::new(), bad_ms: String::new(), saving: false, message: None, error: None }
    }
}

impl SettingsState {

    /// Fills the fields left empty from the thresholds in force.
    pub fn sync_from(&mut self, t: HealthThresholds)
        ensures
            final(self).warn_ms@ == (if old(self).warn_ms@.len() == 0 {
                decimal(t.warn_ms as nat)
            } else {
                old(self).warn_ms@
            }),
            final(self).bad_ms@ == (if old(self).bad_ms@.len() == 0 {
                decimal(t.bad_ms as nat)
            } else {
                old(self).bad_ms@
            }),
            final(self).saving == old(self).saving,
            final(self).message == old(self).message,
            final(self).error == old(self).error,
    {
        if self.warn_ms.unicode_len() == 0 {
            let mut s = String::new();
            push_decimal(&mut s, t.warn_ms as u64);
            self.warn_ms = s;
        }
        if self.bad_ms.unicode_len() == 0 {
            let mut s = String::new();
            push_decimal(&mut s, t.bad_ms as u64);
            self.bad_ms = s;
        }
    }

    /// The "green to yellow" field was edited.
    pub fn edit_warn(&mut self, value: String)
        ensures
            *final(self) == (SettingsState { warn_ms: value, message: None, ..*old(self) }),
    {
        self.warn_ms = value;
        self.message = None;
    }

    /// The "yellow to red" field was edited.
    pub fn edit_bad(&mut self, value: String)
        ensures
            *final(self) == (SettingsState { bad_ms: value, message: None, ..*old(self) }),
    {
        self.bad_ms = value;
        self.message = None;
    }

    /// Save: reads the fields and, when they are whole numbers with the
    /// first below the second, starts saving and gives the new thresholds;
    /// otherwise records why not.
    pub fn begin_save(&mut self) -> (r: Option<HealthThresholds>)
        ensures
            match (parsed_u32(old(self).warn_ms@), parsed_u32(old(self).bad_ms@)) {
                (Some(w), Some(b)) => if w < b {
                    r == Some(HealthThresholds { warn_ms: w, bad_ms: b }) && *final(self) == (
                    SettingsState { saving: true, error: None, message: None, ..*old(self) })
                } else {
                    r is None && final(self).error is Some && final(self).error->Some_0@
                        == order_message() && *final(self) == (SettingsState {
                        error: final(self).error,
                        message: None,
                        ..*old(self)
                    })
                },
                _ => r is None && final(self).error is Some && final(self).error->Some_0@
                    == not_numbers_message() && *final(self) == (SettingsState {
                    error: final(self).error,
                    message: None,
                    ..*old(self)
                }),
            },
    {
        let warn = parse_u32(self.warn_ms.as_str());
        let bad = parse_u32(self.bad_ms.as_str());
        match (warn, bad) {
            (Some(w), Some(b)) => {
                if w >= b {
                    self.error = Some(
                        String::from_str("Green\u{2192}Yellow threshold must be smaller than Yellow\u{2192}Red."),
                    );
                    self.message = None;
                    None
                } else {
                    self.saving = true;
                    self.error = None;
                    self.message = None;
                    Some(HealthThresholds { warn_ms: w, bad_ms: b })
                }
            },
            _ => {
                self.error = Some(String::from_str("Both fields must be positive whole numbers (ms)."));
                self.message = None;
                None
            },
        }
    }

    /// The thresholds were saved.
    pub fn save_succeeded(&mut self)
        ensures
            final(self).message is Some && final(self).message->Some_0@ == "Saved."@,
            *final(self) == (SettingsState { saving: false, message: final(self).message, ..*old(self) }),
    {
        self.saving = false;
        self.message = Some(String::from_str("Saved."));
    }

    /// Saving failed with `err`.
    pub fn save_failed(&mut self, err: &str)
        ensures
            final(self).error is Some && final(self).error->Some_0@ == "Save failed: "@ + err@,
            *final(self) == (SettingsState { saving: false, error: final(self).error, ..*old(self) }),
    {
        self.saving = false;
        let mut e = String::from_str("Save failed: ");
        e.append(err);
        self.error = Some(e);
    }

    /// Puts the default thresholds into the fields.
    pub fn reset(&mut self)
        ensures
            final(self).warn_ms@ == decimal(DEFAULT_WARN_MS as nat),
            final(self).bad_ms@ == decimal(DEFAULT_BAD_MS as nat),
            final(self).error is None,
            final(self).message is None,
            final(self).saving == old(self).saving,
    {
        let mut w = String::new();
        push_decimal(&mut w, DEFAULT_WARN_MS as u64);
        let mut b = String::new();
        push_decimal(&mut b, DEFAULT_BAD_MS as u64);
        self.warn_ms = w;
        self.bad_ms = b;
        self.error = None;
        self.message = None;
    }
}

/// Which write window a card controls: the UI's own destructive writes, or
/// the MCP write tools.
#[derive(Clone, Copy, Debug)]
pub enum WritesKind {
    Ui,
    Mcp,
}

/// What the messages of a window call it.
pub open spec fn writes_name(kind: WritesKind) -> Seq<char> {
    match kind {
        WritesKind::Ui => "Write access"@,
        WritesKind::Mcp => "MCP writes"@,
    }
}

/// A write window as a settings card shows it.
pub struct WritesWindow {
    /// The server-side window is open.
    pub enabled: bool,
    /// Seconds left in it (`None` when closed).
    pub remaining_secs: Option<u64>,
    pub saving: bool,
    pub message: Option<String>,
    pub error: Option<String>,
}

/// The message after the window was opened (`enabled`) or closed.
pub open spec fn toggled_message(kind: WritesKind, enabled: bool, remaining: Option<u64>) -> Seq<char> {
    if enabled {
        match remaining {
            Some(secs) => writes_name(kind) + " enabled. "@ + remaining_text(secs as nat) + " left."@,
            None => writes_name(kind) + " enabled."@,
        }
    } else {
        writes_name(kind) + " disabled."@
    }
}

/// `"Write access"` or `"MCP writes"`.
fn writes_name_string(kind: WritesKind) -> (s: String)
    ensures
        s@ == writes_name(kind),
{
    match kind {
        WritesKind::Ui => String::from_str("Write access"),
        WritesKind::Mcp => String::from_str("MCP writes"),
    }
}

impl Default for WritesWindow {
    /// A closed window, before the server has been asked.
    fn default() -> (w: Self)
        ensures
            !w.enabled,
            w.remaining_secs is None,
            !w.saving,
            w.message is None,
            w.error is None,
    {
        WritesWindow { enabled: false, remaining_secs: None, saving: false, message: None, error: None }
    }
}

impl WritesWindow {

    /// What the server reported in a poll.
    pub fn apply_poll(&mut self, enabled: bool, remaining_secs: Option<u64>)
        ensures
            *final(self) == (WritesWindow { enabled, remaining_secs, ..*old(self) }),
    {
        self.enabled = enabled;
        self.remaining_secs = remaining_secs;
    }

    /// A request to open or close the window was sent.
    pub fn begin_toggle(&mut self)
        ensures
            *final(self) == (WritesWindow { saving: true, error: None, message: None, ..*old(self) }),
    {
        self.saving = true;
        self.error = None;
        self.message = None;
    }

    /// The request to open (`enabled`) or close the window succeeded; `server`
    /// is the window the server reported afterwards, when it answered. The
    /// message gives the time the server says is left, since opening adds to
    /// what was left.
    pub fn toggle_succeeded(&mut self, kind: WritesKind, enabled: bool, server: Option<(bool, Option<u64>)>)
        ensures
            !final(self).saving,
            final(self).enabled == match server {
                Some((e, _)) => e,
                None => enabled,
            },
            final(self).remaining_secs == match server {
                Some((_, r)) => r,
                None => old(self).remaining_secs,
            },
            final(self).message is Some,
            final(self).message->Some_0@ == toggled_message(kind, enabled, final(self).remaining_secs),
            final(self).error == old(self).error,
    {
        self.saving = false;
        match server {
            Some((e, r)) => {
                self.enabled = e;
                self.remaining_secs = r;
            },
            None => {
                self.enabled = enabled;
            },
        }
        let mut m = writes_name_string(kind);
        if enabled {
            match self.remaining_secs {
                Some(secs) => {
                    m.append(" enabled. ");
                    let rest = format_remaining(secs);
                    m.append(rest.as_str());
                    m.append(" left.");
                },
                None => {
                    m.append(" enabled.");
                },
            }
        } else {
            m.append(" disabled.");
        }
        self.message = Some(m);
    }

    /// The request failed with `err`.
    pub fn toggle_failed(&mut self, err: &str)
        ensures
            final(self).error is Some && final(self).error->Some_0@ == "Failed: "@ + err@,
            *final(self) == (WritesWindow { saving: false, error: final(self).error, ..*old(self) }),
    {
        self.saving = false;
        let mut e = String::from_str("Failed: ");
        e.append(err);
        self.error = Some(e);
    }
}

/// The labels of a write window card.
pub struct WritesCardView {
    /// Next to the card title.
    pub status: String,
    pub status_color: &'static str,
    /// The countdown.
    pub remaining: String,
    /// The enable (or extend) button.
    pub enable_label: &'static str,
}

/// The labels of the card of window `w`.
pub fn writes_card_view(w: &WritesWindow) -> (v: WritesCardView)
    ensures
        v.status@ == (if w.enabled {
            match w.remaining_secs {
                Some(secs) => "enabled \u{2014} ~"@ + remaining_text(secs as nat) + " left"@,
                None => "enabled"@,
            }
        } else {
            "disabled"@
        }),
        v.status_color@ == (if w.enabled { "var(--ok)"@ } else { "var(--text-muted)"@ }),
        v.remaining@ == match w.remaining_secs {
            Some(secs) => remaining_text(secs as nat),
            None => "\u{2014}"@,
        },
        v.enable_label@ == (if w.saving {
            "Working\u{2026}"@
        } else if w.enabled {
            "Extend +10 min"@
        } else {
            "Enable for 10 min"@
        }),
{
    let status = if w.enabled {
        match w.remaining_secs {
            Some(secs) => {
                let mut s = String::from_str("enabled \u{2014} ~");
                let rest = format_remaining(secs);
                s.append(rest.as_str());
                s.append(" left");
                s
            },
            None => String::from_str("enabled"),
        }
    } else {
        String::from_str("disabled")
    };
    let status_color = if w.enabled { "var(--ok)" } else { "var(--text-muted)" };
    let remaining = match w.remaining_secs {
        Some(secs) => format_remaining(secs),
        None => String::from_str("\u{2014}"),
    };
    let enable_label = if w.saving {
        "Working\u{2026}"
    } else if w.enabled {
        "Extend +10 min"
    } else {
        "Enable for 10 min"
    };
    WritesCardView { status, status_color, remaining, enable_label }
}

} // verus!
