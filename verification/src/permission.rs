//! The permission mode, the axis of the permission model that clients read.
use crate::text;
use vstd::prelude::*;
use vstd::string::*;

verus! {

#[derive(Debug, Clone, Copy, PartialEq, Eq, Structural)]
pub enum PermissionMode {
    /// Asks on a sensitive action.
    Default,
    /// Accepts file edits, asks for the rest.
    AcceptEdits,
    /// Never interrupts.
    DontAsk,
    /// Skips every check.
    BypassPermissions,
    /// Reads only.
    Plan,
}

impl Default for PermissionMode {
    fn default() -> (mode: Self)
        ensures
            mode == PermissionMode::Default,
    {
        PermissionMode::Default
    }
}

impl PermissionMode {
    /// The one spelling of the mode, shared by configuration, command line and wire.
    pub open spec fn spelling(self) -> &'static str {
        match self {
            PermissionMode::Default => "ask",
            PermissionMode::AcceptEdits => "accept-edits",
            PermissionMode::DontAsk => "auto",
            PermissionMode::BypassPermissions => "full-access",
            PermissionMode::Plan => "read-only",
        }
    }

    pub fn id(self) -> (id: &'static str)
        ensures
            id == self.spelling(),
    {
        match self {
            PermissionMode::Default => "ask",
            PermissionMode::AcceptEdits => "accept-edits",
            PermissionMode::DontAsk => "auto",
            PermissionMode::BypassPermissions => "full-access",
            PermissionMode::Plan => "read-only",
        }
    }

    /// The mode of a spelling; `None` for any other text.
    pub fn from_id(id: &str) -> (mode: Option<PermissionMode>)
        ensures
            match mode {
                Some(found) => found.spelling()@ == id@,
                None => forall|m: PermissionMode| #[trigger] m.spelling()@ != id@,
            },
    {
        if text::same_text(id, "ask") {
            Some(PermissionMode::Default)
        } else if text::same_text(id, "accept-edits") {
            Some(PermissionMode::AcceptEdits)
        } else if text::same_text(id, "auto") {
            Some(PermissionMode::DontAsk)
        } else if text::same_text(id, "full-access") {
            Some(PermissionMode::BypassPermissions)
        } else if text::same_text(id, "read-only") {
            Some(PermissionMode::Plan)
        } else {
            None
        }
    }
}

/// No two modes share a spelling, so a mode is read back from the text it is written as.
pub proof fn law_spellings_are_distinct(a: PermissionMode, b: PermissionMode)
    ensures
        a.spelling()@ == b.spelling()@ ==> a == b,
{
    reveal_strlit("ask");
    reveal_strlit("accept-edits");
    reveal_strlit("auto");
    reveal_strlit("full-access");
    reveal_strlit("read-only");
    assert("ask"@.len() == 3 && "accept-edits"@.len() == 12 && "auto"@.len() == 4);
    assert("full-access"@.len() == 11 && "read-only"@.len() == 9);
}

/// The spellings of the modes.
pub proof fn law_modes_are_spelled(mode: PermissionMode)
    ensures
        mode.spelling()@ == "ask"@ <==> mode == PermissionMode::Default,
        mode.spelling()@ == "accept-edits"@ <==> mode == PermissionMode::AcceptEdits,
        mode.spelling()@ == "auto"@ <==> mode == PermissionMode::DontAsk,
        mode.spelling()@ == "full-access"@ <==> mode == PermissionMode::BypassPermissions,
        mode.spelling()@ == "read-only"@ <==> mode == PermissionMode::Plan,
{
    law_spellings_are_distinct(mode, PermissionMode::Default);
    law_spellings_are_distinct(mode, PermissionMode::AcceptEdits);
    law_spellings_are_distinct(mode, PermissionMode::DontAsk);
    law_spellings_are_distinct(mode, PermissionMode::BypassPermissions);
    law_spellings_are_distinct(mode, PermissionMode::Plan);
}

} // verus!
