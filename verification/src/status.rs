//! Agent status indicators: the glyph drawn for each agent state in each
//! indicator style, including the animated spinner for working agents.
use vstd::prelude::*;

verus! {

/// What an agent in a pane is doing.
#[derive(Clone, Copy, Debug, PartialEq, Eq, Structural)]
pub enum AgentStatus {
    Working,
    Blocked,
    Done,
    Idle,
    Unknown,
}

/// How agent states are drawn in the sidebar.
#[derive(Clone, Copy, Debug, PartialEq, Eq, Structural)]
pub enum StatusIndicatorStyle {
    Dots,
    Symbols,
    Animated,
}

/// Number of frames of the working spinner.
pub const SPINNER_FRAME_COUNT: u8 = 10;

/// Milliseconds between two spinner frames.
pub const SPINNER_FRAME_MILLIS: u64 = 100;

/// The working spinner's frames, in order.
pub open spec fn spec_spinner_frame(i: int) -> &'static str {
    if i == 0 {
        "⠋"
    } else if i == 1 {
        "⠙"
    } else if i == 2 {
        "⠹"
    } else if i == 3 {
        "⠸"
    } else if i == 4 {
        "⠼"
    } else if i == 5 {
        "⠴"
    } else if i == 6 {
        "⠦"
    } else if i == 7 {
        "⠧"
    } else if i == 8 {
        "⠇"
    } else {
        "⠏"
    }
}

/// The frames of the working spinner, in order.
pub fn working_spinner_frames() -> (frames: Vec<&'static str>)
    ensures
        frames@.len() == SPINNER_FRAME_COUNT,
        forall|i: int| 0 <= i < SPINNER_FRAME_COUNT ==> #[trigger] frames@[i] == spec_spinner_frame(i),
{
    let frames = vec!["⠋", "⠙", "⠹", "⠸", "⠼", "⠴", "⠦", "⠧", "⠇", "⠏"];
    assert forall|i: int| 0 <= i < SPINNER_FRAME_COUNT implies #[trigger] frames@[i] == spec_spinner_frame(i) by {
    }
    frames
}

/// The glyph for `status` in a non-animated style.
pub open spec fn spec_static_icon(status: AgentStatus, style: StatusIndicatorStyle) -> &'static str {
    match style {
        StatusIndicatorStyle::Dots => "●",
        _ => match status {
            AgentStatus::Working => "◐",
            AgentStatus::Blocked => "▲",
            AgentStatus::Done => "✓",
            AgentStatus::Idle => "○",
            AgentStatus::Unknown => "?",
        },
    }
}

/// The glyph for `status` in `style` at spinner frame `frame`: a working
/// agent in the animated style shows the spinner frame `frame % 10`; every
/// other state in the animated style looks as it does with symbols.
pub open spec fn spec_status_icon_at_frame(
    status: AgentStatus,
    style: StatusIndicatorStyle,
    frame: u8,
) -> &'static str {
    match style {
        StatusIndicatorStyle::Animated => match status {
            AgentStatus::Working => spec_spinner_frame((frame % SPINNER_FRAME_COUNT) as int),
            _ => spec_static_icon(status, StatusIndicatorStyle::Symbols),
        },
        _ => spec_static_icon(status, style),
    }
}

/// The glyph for `status` in `style` at spinner frame `frame`.
pub fn status_icon_at_frame(status: AgentStatus, style: StatusIndicatorStyle, frame: u8) -> (icon: &'static str)
    ensures
        icon == spec_status_icon_at_frame(status, style, frame),
{
    match style {
        StatusIndicatorStyle::Animated => match status {
            AgentStatus::Working => {
                let frames = working_spinner_frames();
                frames[(frame % SPINNER_FRAME_COUNT) as usize]
            },
            _ => status_icon(status, StatusIndicatorStyle::Symbols),
        },
        _ => status_icon(status, style),
    }
}

/// The glyph for `status` in `style`, at the first spinner frame.
pub fn status_icon(status: AgentStatus, style: StatusIndicatorStyle) -> (icon: &'static str)
    ensures
        icon == spec_status_icon_at_frame(status, style, 0),
    decreases 0nat,
{
    match style {
        StatusIndicatorStyle::Dots => "●",
        StatusIndicatorStyle::Animated => match status {
            AgentStatus::Working => "⠋",
            AgentStatus::Blocked => "▲",
            AgentStatus::Done => "✓",
            AgentStatus::Idle => "○",
            AgentStatus::Unknown => "?",
        },
        StatusIndicatorStyle::Symbols => match status {
            AgentStatus::Working => "◐",
            AgentStatus::Blocked => "▲",
            AgentStatus::Done => "✓",
            AgentStatus::Idle => "○",
            AgentStatus::Unknown => "?",
        },
    }
}

/// In the animated style every state but working looks exactly as it does
/// with symbols, whatever the frame.
pub proof fn lemma_animated_matches_symbols_when_not_working(status: AgentStatus, frame: u8)
    requires
        status != AgentStatus::Working,
    ensures
        spec_status_icon_at_frame(status, StatusIndicatorStyle::Animated, frame)
            == spec_status_icon_at_frame(status, StatusIndicatorStyle::Symbols, 0),
{
}

/// The working spinner advances with the frame and wraps after ten frames.
pub proof fn lemma_working_spinner_wraps_at_ten(frame: u8)
    requires
        frame + SPINNER_FRAME_COUNT <= u8::MAX,
    ensures
        spec_status_icon_at_frame(AgentStatus::Working, StatusIndicatorStyle::Animated, frame)
            == spec_status_icon_at_frame(
            AgentStatus::Working,
            StatusIndicatorStyle::Animated,
            (frame + SPINNER_FRAME_COUNT) as u8,
        ),
{
}

} // verus!
