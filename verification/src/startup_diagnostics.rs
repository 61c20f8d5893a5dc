//! The diagnostic variant a build was packaged with, and the pure rules of the startup
//! diagnostics log.
use vstd::prelude::*;
use crate::text::{trim, parse_unsigned, trim_text, text_eq, parse_u64_text};

verus! {

/// The diagnostic behaviour a build of the application was packaged with.
#[derive(Debug, Clone, Copy, PartialEq, Eq, Structural)]
pub enum StartupDiagnosticVariant {
    Disabled,
    Control,
    NoStartupRefresh,
    NoStartupUiUpdate,
}

/// The name of each variant, as the build setting spells it.
pub open spec fn variant_name(v: StartupDiagnosticVariant) -> Seq<char> {
    match v {
        StartupDiagnosticVariant::Disabled => "Disabled"@,
        StartupDiagnosticVariant::Control => "Control"@,
        StartupDiagnosticVariant::NoStartupRefresh => "NoStartupRefresh"@,
        StartupDiagnosticVariant::NoStartupUiUpdate => "NoStartupUiUpdate"@,
    }
}

/// The variant a trimmed build setting names; any other text disables the diagnostics.
pub open spec fn variant_for(text: Seq<char>) -> StartupDiagnosticVariant {
    if text == "Control"@ {
        StartupDiagnosticVariant::Control
    } else if text == "NoStartupRefresh"@ {
        StartupDiagnosticVariant::NoStartupRefresh
    } else if text == "NoStartupUiUpdate"@ {
        StartupDiagnosticVariant::NoStartupUiUpdate
    } else {
        StartupDiagnosticVariant::Disabled
    }
}

/// The text of an optional setting, empty where it is missing.
pub open spec fn setting_text(value: Option<&str>) -> Seq<char> {
    match value {
        Some(s) => s@,
        None => Seq::empty(),
    }
}

impl StartupDiagnosticVariant {
    /// The name of the variant.
    pub fn name(self) -> (r: &'static str)
        ensures
            r@ == variant_name(self),
    {
        match self {
            StartupDiagnosticVariant::Disabled => "Disabled",
            StartupDiagnosticVariant::Control => "Control",
            StartupDiagnosticVariant::NoStartupRefresh => "NoStartupRefresh",
            StartupDiagnosticVariant::NoStartupUiUpdate => "NoStartupUiUpdate",
        }
    }

    /// True only for the variant that skips the delayed startup refresh.
    pub fn skips_startup_refresh(self) -> (r: bool)
        ensures
            r <==> self == StartupDiagnosticVariant::NoStartupRefresh,
    {
        self == StartupDiagnosticVariant::NoStartupRefresh
    }

    /// True only for the variant that skips the startup update of the panel.
    pub fn skips_startup_ui_update(self) -> (r: bool)
        ensures
            r <==> self == StartupDiagnosticVariant::NoStartupUiUpdate,
    {
        self == StartupDiagnosticVariant::NoStartupUiUpdate
    }
}

/// The variant that the build setting `value` selects, after trimming white space.
pub fn parse_variant(value: Option<&str>) -> (r: StartupDiagnosticVariant)
    ensures
        r == variant_for(trim(setting_text(value))),
{
    let t = match value {
        Some(s) => trim_text(s),
        None => trim_text(""),
    };
    proof {
        if value is None {
            reveal_strlit("");
            assert(""@ =~= Seq::<char>::empty());
        }
    }
    if text_eq(t.as_str(), "Control") {
        StartupDiagnosticVariant::Control
    } else if text_eq(t.as_str(), "NoStartupRefresh") {
        StartupDiagnosticVariant::NoStartupRefresh
    } else if text_eq(t.as_str(), "NoStartupUiUpdate") {
        StartupDiagnosticVariant::NoStartupUiUpdate
    } else {
        StartupDiagnosticVariant::Disabled
    }
}

/// How long a smoke test runs when no valid duration is configured.
pub const DEFAULT_SMOKE_SECONDS: u64 = 20;

/// The smoke-test duration a setting asks for: a number of seconds from 5 to 300, else the
/// default.
pub open spec fn smoke_seconds_for(text: Option<Seq<char>>) -> int {
    match text {
        Some(t) => match parse_unsigned(t) {
            Some(n) => if 5 <= n <= 300 { n } else { DEFAULT_SMOKE_SECONDS as int },
            None => DEFAULT_SMOKE_SECONDS as int,
        },
        None => DEFAULT_SMOKE_SECONDS as int,
    }
}

/// The smoke-test duration in seconds that the setting `value` selects.
pub fn smoke_seconds_from_value(value: Option<&str>) -> (r: u64)
    ensures
        r == smoke_seconds_for(match value { Some(s) => Some(s@), None => None }),
{
    match value {
        Some(s) => match parse_u64_text(s) {
            Some(n) => if 5 <= n && n <= 300 { n } else { DEFAULT_SMOKE_SECONDS },
            None => DEFAULT_SMOKE_SECONDS,
        },
        None => DEFAULT_SMOKE_SECONDS,
    }
}

/// Whether a character would break a line of the tab-separated diagnostics log.
pub open spec fn breaks_log_line(c: char) -> bool {
    c == '\r' || c == '\n' || c == '\t'
}

/// `message` with each carriage return, line feed and tab replaced by a space.
pub open spec fn sanitized_message(message: Seq<char>) -> Seq<char> {
    message.map_values(|c: char| if breaks_log_line(c) { ' ' } else { c })
}

/// The message as it is written into one field of the diagnostics log.
pub fn sanitize_message(message: &str) -> (r: String)
    ensures
        r@ == sanitized_message(message@),
{
    let n = message.unicode_len();
    let mut out = String::new();
    let mut i: usize = 0;
    while i < n
        invariant
            n == message@.len(),
            i <= n,
            out@ == sanitized_message(message@.take(i as int)),
        decreases n - i,
    {
        let c = message.get_char(i);
        let d = if c == '\r' || c == '\n' || c == '\t' { ' ' } else { c };
        crate::text::push_char(&mut out, d);
        i += 1;
        assert(sanitized_message(message@.take(i as int)) =~= sanitized_message(
            message@.take(i - 1),
        ).push(d));
    }
    assert(message@.take(n as int) =~= message@);
    out
}

} // verus!
