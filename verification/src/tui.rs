//! What the management console decides: labels and colors of health and
//! container states, and how the selection moves through the app table.
use vstd::prelude::*;
use crate::app::{spec_health, AppStatus, Health};
use crate::cli::{spec_state_tone, Tone};
use crate::text::{decimal, decimal_string, eq_str};
use crate::util::own;

verus! {

/// A container state's color in the detail panel.
pub fn state_color(s: &str) -> (r: Tone)
    ensures
        r == spec_state_tone(s@),
{
    if eq_str(s, "running") {
        Tone::Green
    } else if eq_str(s, "missing") {
        Tone::Red
    } else {
        Tone::Yellow
    }
}

/// A health verdict's label.
pub open spec fn health_text(h: Health) -> Seq<char> {
    match h {
        Health::Healthy => "healthy"@,
        Health::NotRouted => "not routed"@,
        Health::Stopped => "stopped"@,
        Health::Missing => "missing"@,
    }
}

/// A health verdict's color.
pub open spec fn health_tone(h: Health) -> Tone {
    match h {
        Health::Healthy => Tone::Green,
        Health::NotRouted => Tone::Yellow,
        Health::Stopped => Tone::Yellow,
        Health::Missing => Tone::Red,
    }
}

/// A health verdict's label and color in the table.
pub fn health_label(h: Health) -> (r: (&'static str, Tone))
    ensures
        r.0@ == health_text(h),
        r.1 == health_tone(h),
{
    match h {
        Health::Healthy => ("healthy", Tone::Green),
        Health::NotRouted => ("not routed", Tone::Yellow),
        Health::Stopped => ("stopped", Tone::Yellow),
        Health::Missing => ("missing", Tone::Red),
    }
}

/// The health shown in an app's row: its verdict, or `Missing` when its
/// status could not be had.
pub fn row_health(status: Option<&AppStatus>) -> (r: Health)
    ensures
        match status {
            Some(st) => r == spec_health(st.container_state@, st.routed),
            None => r == Health::Missing,
        },
{
    match status {
        Some(st) => st.health(),
        None => Health::Missing,
    }
}

/// What a key press does in the console.
#[derive(Debug, Clone, Copy, PartialEq, Eq, Structural)]
pub enum ConsoleAction {
    Quit,
    /// Move the selection by this many rows.
    Move(isize),
    Refresh,
    Stop,
    Start,
    Restart,
    Nothing,
}

/// The console's keys: Ctrl-C or Ctrl-D (which arrive as keys in raw mode),
/// `q` or Esc quit; `j`/Down and `k`/Up move the selection; `r` refreshes;
/// `s`, `g` and `x` stop, start and restart the selected app. A key is the
/// character typed (if any) or Esc, Up or Down; `ctrl` says Control was held.
pub open spec fn spec_key_action(ch: Option<char>, esc: bool, up: bool, down: bool, ctrl: bool) -> ConsoleAction {
    if ctrl && (ch == Some('c') || ch == Some('d')) {
        ConsoleAction::Quit
    } else if ch == Some('q') || esc {
        ConsoleAction::Quit
    } else if ch == Some('j') || down {
        ConsoleAction::Move(1isize)
    } else if ch == Some('k') || up {
        ConsoleAction::Move(-1isize)
    } else if ch == Some('r') {
        ConsoleAction::Refresh
    } else if ch == Some('s') {
        ConsoleAction::Stop
    } else if ch == Some('g') {
        ConsoleAction::Start
    } else if ch == Some('x') {
        ConsoleAction::Restart
    } else {
        ConsoleAction::Nothing
    }
}

/// The action of a key press.
pub fn key_action(ch: Option<char>, esc: bool, up: bool, down: bool, ctrl: bool) -> (r: ConsoleAction)
    ensures
        r == spec_key_action(ch, esc, up, down, ctrl),
{
    if ctrl && (ch == Some('c') || ch == Some('d')) {
        ConsoleAction::Quit
    } else if ch == Some('q') || esc {
        ConsoleAction::Quit
    } else if ch == Some('j') || down {
        ConsoleAction::Move(1isize)
    } else if ch == Some('k') || up {
        ConsoleAction::Move(-1isize)
    } else if ch == Some('r') {
        ConsoleAction::Refresh
    } else if ch == Some('s') {
        ConsoleAction::Stop
    } else if ch == Some('g') {
        ConsoleAction::Start
    } else if ch == Some('x') {
        ConsoleAction::Restart
    } else {
        ConsoleAction::Nothing
    }
}

/// The detail panel of an app, line by line as (label, value, color): kind,
/// URL, upstream, the image (for an app that has one), the container state
/// in its color, the route, a blank line, and the health verdict.
pub open spec fn spec_detail_lines(s: AppStatus) -> Seq<(Seq<char>, Seq<char>, Option<Tone>)> {
    let head = seq![
        ("kind"@, s.kind@, None::<Tone>),
        ("url"@, "https://"@ + s.host@, None::<Tone>),
        ("upstream"@, s.ip@ + ":"@ + decimal(s.port as nat), None::<Tone>),
    ];
    let image = match s.image {
        Some(i) => seq![("image"@, i@, None::<Tone>)],
        None => Seq::empty(),
    };
    let h = spec_health(s.container_state@, s.routed);
    let tail = seq![
        ("container"@, s.container_state@, Some(spec_state_tone(s.container_state@))),
        ("route"@, if s.routed { "published"@ } else { "missing"@ }, Some(if s.routed { Tone::Green } else { Tone::Red })),
        (""@, ""@, None::<Tone>),
        ("status"@, health_text(h), Some(health_tone(h))),
    ];
    head + image + tail
}

/// The lines of a panel, as text.
pub open spec fn line_views(ls: Seq<(String, String, Option<Tone>)>) -> Seq<(Seq<char>, Seq<char>, Option<Tone>)> {
    ls.map_values(|l: (String, String, Option<Tone>)| (l.0@, l.1@, l.2))
}

/// The detail panel of an app (drawn as it comes).
pub fn detail_lines(s: &AppStatus) -> (r: Vec<(String, String, Option<Tone>)>)
    ensures
        line_views(r@) == spec_detail_lines(*s),
{
    let mut url = own("https://");
    url.append(s.host.as_str());
    let mut upstream = own(s.ip.as_str());
    upstream.append(":");
    let p = decimal_string(s.port as u64);
    upstream.append(p.as_str());
    let mut r: Vec<(String, String, Option<Tone>)> = Vec::new();
    r.push((own("kind"), own(s.kind), None));
    r.push((own("url"), url, None));
    r.push((own("upstream"), upstream, None));
    match &s.image {
        Some(i) => r.push((own("image"), own(i.as_str()), None)),
        None => {},
    }
    r.push((own("container"), own(s.container_state.as_str()), Some(state_color(s.container_state.as_str()))));
    if s.routed {
        r.push((own("route"), own("published"), Some(Tone::Green)));
    } else {
        r.push((own("route"), own("missing"), Some(Tone::Red)));
    }
    r.push((own(""), own(""), None));
    let (label, tone) = health_label(s.health());
    r.push((own("status"), own(label), Some(tone)));
    assert(line_views(r@) =~= spec_detail_lines(*s));
    r
}

/// Moving the selection by `delta` rows in a table of `n` rows wraps around;
/// an empty table keeps its (absent) selection.
pub fn step(selected: Option<usize>, delta: isize, n: usize) -> (r: Option<usize>)
    requires
        n == 0 || isize::MIN <= cur_row(selected) + delta <= isize::MAX,
    ensures
        n == 0 ==> r == selected,
        n > 0 ==> r == Some(((cur_row(selected) + delta) % (n as int)) as usize),
{
    if n == 0 {
        return selected;
    }
    let cur: isize = match selected {
        Some(i) => i as isize,
        None => 0,
    };
    let x: isize = cur + delta;
    if x >= 0 {
        let e = (x as usize) % n;
        Some(e)
    } else {
        let y: usize = (-(x + 1)) as usize;
        let a = y % n;
        let e = n - 1 - a;
        assert(e as int == (x as int) % (n as int)) by (nonlinear_arith)
            requires
                x < 0,
                y as int == -(x as int + 1),
                n > 0,
                a as int == (y as int) % (n as int),
                e as int == n - 1 - a,
        {
            let q = (y as int) / (n as int);
            assert(y as int == q * n + a);
            assert(x as int == (-q - 1) * n + (n - 1 - a));
            vstd::arithmetic::div_mod::lemma_fundamental_div_mod_converse(
                x as int,
                n as int,
                -q - 1,
                n - 1 - a,
            );
        }
        Some(e)
    }
}

/// The row a selection stands on, as the signed index the step starts from
/// (no selection is row 0).
pub open spec fn cur_row(selected: Option<usize>) -> int {
    match selected {
        Some(i) => (i as isize) as int,
        None => 0,
    }
}

/// After a refresh the selection stays where it was, moved up onto the last
/// row if the table shrank; the first row is selected when nothing was.
pub fn reselect(selected: Option<usize>, n: usize) -> (r: Option<usize>)
    ensures
        n == 0 ==> r is None,
        n > 0 ==> r == Some(
            if (match selected {
                Some(i) => i,
                None => 0usize,
            }) < n - 1 {
                match selected {
                    Some(i) => i,
                    None => 0usize,
                }
            } else {
                (n - 1) as usize
            },
        ),
{
    if n == 0 {
        return None;
    }
    let sel = match selected {
        Some(i) => i,
        None => 0,
    };
    if sel < n - 1 {
        Some(sel)
    } else {
        Some(n - 1)
    }
}

} // verus!
