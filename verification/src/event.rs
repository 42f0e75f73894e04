//! The parsed syslog event handed to the chunk accumulator.

use vstd::prelude::*;

verus! {

/// A parsed syslog event.  Timestamps are milliseconds since the Unix
/// epoch; `None` means "use the wall clock at seal time".
pub struct SyslogMessage {
    pub priority: u8,
    pub facility: u8,
    pub severity: u8,
    pub timestamp: Option<i64>,
    pub hostname: Option<String>,
    pub app_name: Option<String>,
    pub procid: Option<String>,
    pub msgid: Option<String>,
    pub structured_data: Option<String>,
    pub message: String,
    pub is_rfc5424: bool,
}

/// The mathematical model of an event.
pub struct MsgV {
    pub priority: u8,
    pub facility: u8,
    pub severity: u8,
    pub timestamp: Option<i64>,
    pub hostname: Option<Seq<char>>,
    pub app_name: Option<Seq<char>>,
    pub procid: Option<Seq<char>>,
    pub msgid: Option<Seq<char>>,
    pub structured_data: Option<Seq<char>>,
    pub message: Seq<char>,
    pub is_rfc5424: bool,
}

impl DeepView for SyslogMessage {
    type V = MsgV;

    open spec fn deep_view(&self) -> MsgV {
        self.view()
    }
}

impl View for SyslogMessage {
    type V = MsgV;

    open spec fn view(&self) -> MsgV {
        MsgV {
            priority: self.priority,
            facility: self.facility,
            severity: self.severity,
            timestamp: self.timestamp,
            hostname: self.hostname.deep_view(),
            app_name: self.app_name.deep_view(),
            procid: self.procid.deep_view(),
            msgid: self.msgid.deep_view(),
            structured_data: self.structured_data.deep_view(),
            message: self.message@,
            is_rfc5424: self.is_rfc5424,
        }
    }
}

} // verus!
