//! What the command-line frontend shows beyond the data itself: the tone
//! (color) of a container state and the verdict line of a status.
use vstd::prelude::*;
use crate::app::{spec_health, AppStatus, Health};
use crate::text::eq_str;
use crate::util::own;

verus! {

/// The color a frontend gives a piece of status text.
#[derive(Debug, Clone, Copy, PartialEq, Eq, Structural)]
pub enum Tone {
    Green,
    Yellow,
    Red,
}

pub open spec fn spec_state_tone(s: Seq<char>) -> Tone {
    if s == "running"@ {
        Tone::Green
    } else if s == "missing"@ {
        Tone::Red
    } else {
        Tone::Yellow
    }
}

/// A container state's color, spelled out: green only when running, red
/// only when missing, yellow for every other state.
pub proof fn law_state_tone(s: Seq<char>)
    ensures
        spec_state_tone(s) == Tone::Green <==> s == "running"@,
        spec_state_tone(s) == Tone::Red <==> s == "missing"@,
        spec_state_tone(s) == Tone::Yellow <==> (s != "running"@ && s != "missing"@),
{
    reveal_strlit("running");
    reveal_strlit("missing");
    assert("running"@[0] != "missing"@[0]);
}

/// A container state is green when running, red when missing, yellow
/// otherwise.
pub fn color_state(s: &str) -> (r: Tone)
    ensures
        r == spec_state_tone(s@),
{
    if eq_str(s, "running") {
        Tone::Green
    } else if eq_str(s, "missing") {
        Tone::Red
    } else {
        Tone::Yellow
    }
}

/// The closing line of `charm status`: the health verdict and what to do
/// about it.
pub fn verdict(s: &AppStatus) -> (r: (Tone, String))
    ensures
        match spec_health(s.container_state@, s.routed) {
            Health::Healthy => r.0 == Tone::Green && r.1@ == "healthy"@,
            Health::NotRouted => r.0 == Tone::Yellow && r.1@
                == "running but not routed - run `charm sync`"@,
            Health::Stopped => r.0 == Tone::Yellow && r.1@ == "stopped - run `charm start "@
                + s.name@ + "`"@,
            Health::Missing => r.0 == Tone::Red && r.1@ == "container missing - run `charm start "@
                + s.name@ + "` or redeploy"@,
        },
{
    match s.health() {
        Health::Healthy => (Tone::Green, own("healthy")),
        Health::NotRouted => (Tone::Yellow, own("running but not routed - run `charm sync`")),
        Health::Stopped => {
            let mut m = own("stopped - run `charm start ");
            m.append(s.name.as_str());
            m.append("`");
            (Tone::Yellow, m)
        },
        Health::Missing => {
            let mut m = own("container missing - run `charm start ");
            m.append(s.name.as_str());
            m.append("` or redeploy");
            (Tone::Red, m)
        },
    }
}

} // verus!
