use vstd::prelude::*;
use vstd::string::StringExecFns;
use vstd::utf8::encode_utf8;
use base64::Engine;
use crate::numbers::{i64_to_decimal, u64_to_decimal, int_decimal, parse_i32, parse_i32_spec};
use crate::options::{
    apply_option, apply_option_lines, is_enabled, is_flag_option, is_valued_option,
    parse_option_chars, single_quoted, OptionsState,
};
use crate::text::{
    lemma_split_char_nonempty,
    count_char, lemma_join_count, lemma_split_pieces_lack_sep,
    drop_trailing_empty, find_char, split_once, trim_end_blanks, trim_end_blanks_in_place, trim_end_in_place, trim_end_ws,
    chars_eq_str, extend_chars, from_chars, join, join_chars, replace, replace_all,
    split, split_char, starts_with, to_chars, views,
};

verus! {

/// The file where `thumbs` leaves the picked hints.
pub open spec fn tmp_file() -> Seq<char> {
    "/tmp/thumbs-last"@
}

/// The views of a list of strings.
pub open spec fn argv(v: Seq<String>) -> Seq<Seq<char>> {
    v.map_values(|s: String| s@)
}

/// The view of an optional string.
pub open spec fn opt_view(o: Option<String>) -> Option<Seq<char>> {
    match o {
        Some(s) => Some(s@),
        None => None,
    }
}

/// What a swapper knows, as plain values.
pub struct SwapperView {
    pub dir: Seq<char>,
    pub command: Seq<char>,
    pub upcase_command: Seq<char>,
    pub multi_command: Seq<char>,
    pub osc52: bool,
    pub active_pane_id: Option<Seq<char>>,
    pub active_pane_height: Option<i32>,
    pub active_pane_scroll_position: Option<i32>,
    pub active_pane_zoomed: Option<bool>,
    pub thumbs_pane_id: Option<Seq<char>>,
    pub content: Option<Seq<char>>,
    pub signal: Seq<char>,
}

/// The state of one thumbs session in tmux: the settings it runs with, what it
/// learned of the active pane, the pane where `thumbs` runs, and what was picked.
///
/// The swapper itself runs nothing: each step hands back the command to run
/// (a program and its arguments), and takes back what that command printed.
pub struct Swapper {
    pub dir: String,
    pub command: String,
    pub upcase_command: String,
    pub multi_command: String,
    pub osc52: bool,
    pub active_pane_id: Option<String>,
    pub active_pane_height: Option<i32>,
    pub active_pane_scroll_position: Option<i32>,
    pub active_pane_zoomed: Option<bool>,
    pub thumbs_pane_id: Option<String>,
    pub content: Option<String>,
    pub signal: String,
}

impl View for Swapper {
    type V = SwapperView;

    open spec fn view(&self) -> SwapperView {
        SwapperView {
            dir: self.dir@,
            command: self.command@,
            upcase_command: self.upcase_command@,
            multi_command: self.multi_command@,
            osc52: self.osc52,
            active_pane_id: opt_view(self.active_pane_id),
            active_pane_height: self.active_pane_height,
            active_pane_scroll_position: self.active_pane_scroll_position,
            active_pane_zoomed: self.active_pane_zoomed,
            thumbs_pane_id: opt_view(self.thumbs_pane_id),
            content: opt_view(self.content),
            signal: self.signal@,
        }
    }
}

/// The file where the options of thumbs may be saved for `user`.
pub open spec fn options_file_path_spec(user: Seq<char>) -> Seq<char> {
    "/tmp/thumbs-options-"@ + user + ".txt"@
}

/// The file where the options of thumbs may be saved for `user`.
pub fn options_file_path(user: &str) -> (r: String)
    ensures
        r@ == options_file_path_spec(user@),
{
    let mut r = "/tmp/thumbs-options-".to_owned();
    r.append(user);
    r.append(".txt");
    r
}

/// The tmux command that prints the global options.
pub open spec fn show_options_command_spec() -> Seq<Seq<char>> {
    seq!["tmux"@, "show"@, "-g"@]
}

/// The tmux command that prints the global options, where thumbs reads its own.
pub fn show_options_command() -> (r: Vec<String>)
    ensures
        argv(r@) == show_options_command_spec(),
{
    let r = vec!["tmux".to_owned(), "show".to_owned(), "-g".to_owned()];
    assert(argv(r@) =~= show_options_command_spec());
    r
}

/// The name of the tmux channel on which `thumbs` says it is done.
pub open spec fn signal_name(started_at: u64) -> Seq<char> {
    "thumbs-finished-"@ + int_decimal(started_at as int)
}

/// Strings from character vectors.
fn strings(v: &Vec<Vec<char>>) -> (r: Vec<String>)
    ensures
        argv(r@) == views(v@),
{
    let mut r: Vec<String> = Vec::new();
    let mut i: usize = 0;
    while i < v.len()
        invariant
            i <= v@.len(),
            argv(r@) == views(v@).take(i as int),
        decreases v.len() - i,
    {
        let item = from_chars(v[i].as_slice());
        assert(item@ == v@[i as int]@);
        let ghost r0 = r@;
        assert(argv(r0).len() == r0.len());
        assert(r0.len() == i);
        r.push(item);
        assert(r@ == r0.push(item));
        i += 1;
        assert forall|k: int| 0 <= k < i implies #[trigger] argv(r@)[k] == views(v@).take(i as int)[k] by {
            if k < i - 1 {
                assert(r@[k] == r0[k]);
                assert(argv(r0)[k] == views(v@).take(i - 1)[k]);
            }
        }
        assert(argv(r@) =~= views(v@).take(i as int));
    }
    assert(views(v@).take(v@.len() as int) =~= views(v@));
    r
}

/// The characters of `a` followed by those of `b`.
fn concat_chars(a: &[char], b: &[char]) -> (r: Vec<char>)
    ensures
        r@ == a@ + b@,
{
    let mut r = vstd::slice::slice_to_vec(a);
    extend_chars(&mut r, b);
    r
}

/// A swapper as it starts: with its settings, nothing known of the panes,
/// nothing picked, and the channel named after `started_at`.
pub open spec fn started_view(
    dir: Seq<char>,
    command: Seq<char>,
    upcase_command: Seq<char>,
    multi_command: Seq<char>,
    osc52: bool,
    started_at: u64,
) -> SwapperView {
    SwapperView {
        dir,
        command,
        upcase_command,
        multi_command,
        osc52,
        active_pane_id: None,
        active_pane_height: None,
        active_pane_scroll_position: None,
        active_pane_zoomed: None,
        thumbs_pane_id: None,
        content: None,
        signal: signal_name(started_at),
    }
}

impl Swapper {
    /// A swapper for a session started `started_at` seconds after the Unix epoch.
    pub fn new(
        dir: String,
        command: String,
        upcase_command: String,
        multi_command: String,
        osc52: bool,
        started_at: u64,
    ) -> (s: Swapper)
        ensures
            s@ == started_view(dir@, command@, upcase_command@, multi_command@, osc52, started_at),
    {
        let mut signal = "thumbs-finished-".to_owned();
        let secs = u64_to_decimal(started_at);
        signal.append(from_chars(secs.as_slice()).as_str());
        Swapper {
            dir,
            command,
            upcase_command,
            multi_command,
            osc52,
            active_pane_id: None,
            active_pane_height: None,
            active_pane_scroll_position: None,
            active_pane_zoomed: None,
            thumbs_pane_id: None,
            content: None,
            signal,
        }
    }
}


/// Why the report of the active pane cannot be read.
#[derive(Debug, Clone, Copy, PartialEq, Eq, Structural)]
pub enum PaneReportError {
    /// Fewer than three fields: no pane height.
    MissingHeight,
    /// The pane height is not an `i32`.
    InvalidHeight,
    /// The pane is in a mode, and there is no fourth field for the scroll position.
    MissingScrollPosition,
    /// The pane is in a mode, and the scroll position is not an `i32`.
    InvalidScrollPosition,
    /// Fewer than five fields: no zoom flag.
    MissingZoomFlag,
}

/// What tmux reports of the active pane.
pub struct ActivePane {
    pub id: String,
    pub height: i32,
    pub scroll_position: Option<i32>,
    pub zoomed: bool,
}

/// What tmux reports of the active pane, as plain values.
pub struct ActivePaneView {
    pub id: Seq<char>,
    pub height: i32,
    pub scroll_position: Option<i32>,
    pub zoomed: bool,
}

impl View for ActivePane {
    type V = ActivePaneView;

    open spec fn view(&self) -> ActivePaneView {
        ActivePaneView {
            id: self.id@,
            height: self.height,
            scroll_position: self.scroll_position,
            zoomed: self.zoomed,
        }
    }
}

/// The tmux command that reports the active pane: its id, whether it is in a
/// mode, its height, its scroll position and whether its window is zoomed.
pub open spec fn active_pane_command_spec() -> Seq<Seq<char>> {
    seq![
        "tmux"@,
        "display-message"@,
        "-p"@,
        "#{pane_id}:#{?pane_in_mode,1,0}:#{pane_height}:#{scroll_position}:#{window_zoomed_flag}:active"@,
    ]
}

/// The report of the active pane read from the colon-separated output of
/// `active_pane_command_spec`: the scroll position is read only when the pane
/// is in a mode (second field `1`), and the pane is zoomed when the fifth field is `1`.
pub open spec fn active_pane_report(out: Seq<char>) -> Result<ActivePaneView, PaneReportError> {
    let fields = split_char(out, ':');
    if fields.len() < 3 {
        Err(PaneReportError::MissingHeight)
    } else {
        match parse_i32_spec(fields[2]) {
            None => Err(PaneReportError::InvalidHeight),
            Some(height) => {
                let in_mode = fields[1] == "1"@;
                if in_mode && fields.len() < 4 {
                    Err(PaneReportError::MissingScrollPosition)
                } else if in_mode && parse_i32_spec(fields[3]) is None {
                    Err(PaneReportError::InvalidScrollPosition)
                } else if fields.len() < 5 {
                    Err(PaneReportError::MissingZoomFlag)
                } else {
                    Ok(
                        ActivePaneView {
                            id: fields[0],
                            height,
                            scroll_position: if in_mode {
                                parse_i32_spec(fields[3])
                            } else {
                                None
                            },
                            zoomed: fields[4] == "1"@,
                        },
                    )
                }
            },
        }
    }
}

/// The tmux command that reports the active pane.
pub fn active_pane_command() -> (r: Vec<String>)
    ensures
        argv(r@) == active_pane_command_spec(),
{
    let r = vec![
        "tmux".to_owned(),
        "display-message".to_owned(),
        "-p".to_owned(),
        "#{pane_id}:#{?pane_in_mode,1,0}:#{pane_height}:#{scroll_position}:#{window_zoomed_flag}:active".to_owned(),
    ];
    assert(argv(r@) =~= active_pane_command_spec());
    r
}

/// Reads what `active_pane_command` printed.
#[verifier::spinoff_prover]
pub fn parse_active_pane(output: &str) -> (r: Result<ActivePane, PaneReportError>)
    ensures
        match active_pane_report(output@) {
            Ok(p) => r matches Ok(a) && a@ == p,
            Err(e) => r matches Err(e2) && e2 == e,
        },
{
    let chars = to_chars(output);
    let fields = split(chars.as_slice(), ':');
    assert(views(fields@)[0] == fields@[0]@);
    if fields.len() < 3 {
        return Err(PaneReportError::MissingHeight);
    }
    assert(views(fields@)[2] == fields@[2]@);
    assert(views(fields@)[1] == fields@[1]@);
    let height = match parse_i32(fields[2].as_slice()) {
        None => {
            return Err(PaneReportError::InvalidHeight);
        },
        Some(h) => h,
    };
    let in_mode = chars_eq_str(fields[1].as_slice(), "1");
    let mut scroll_position: Option<i32> = None;
    if in_mode {
        if fields.len() < 4 {
            return Err(PaneReportError::MissingScrollPosition);
        }
        assert(views(fields@)[3] == fields@[3]@);
        match parse_i32(fields[3].as_slice()) {
            None => {
                return Err(PaneReportError::InvalidScrollPosition);
            },
            Some(sp) => {
                scroll_position = Some(sp);
            },
        }
    }
    if fields.len() < 5 {
        return Err(PaneReportError::MissingZoomFlag);
    }
    assert(views(fields@)[4] == fields@[4]@);
    let zoomed = chars_eq_str(fields[4].as_slice(), "1");
    Ok(
        ActivePane {
            id: from_chars(fields[0].as_slice()),
            height,
            scroll_position,
            zoomed,
        },
    )
}

impl Swapper {
    /// Takes in what `active_pane_command` printed: the active pane's id,
    /// height and zoom flag, and its scroll position when it is in a mode
    /// (otherwise the scroll position known before stays).
    pub fn capture_active_pane(&mut self, output: &str)
        requires
            active_pane_report(output@) is Ok,
        ensures
            final(self)@ == step_result(old(self)@, SwapperStep::CaptureActivePane(output@)),
    {
        match parse_active_pane(output) {
            Ok(p) => {
                self.active_pane_id = Some(p.id);
                self.active_pane_height = Some(p.height);
                if p.scroll_position.is_some() {
                    self.active_pane_scroll_position = p.scroll_position;
                }
                self.active_pane_zoomed = Some(p.zoomed);
            },
            Err(_) => {},
        }
    }
}


/// A step that changes a swapper, with what it takes in: the report of the
/// active pane, the options printed by tmux, the id of the pane of `thumbs`,
/// the picked hints, or the OSC 52 step.
pub enum SwapperStep {
    CaptureActivePane(Seq<char>),
    ExecuteThumbs(Seq<char>),
    SetThumbsPane(Seq<char>),
    RetrieveContent(Seq<char>),
    SendOsc52,
}

/// The swapper after `step`: the report of the active pane sets its id,
/// height and zoom flag, and its scroll position when it gives one (an
/// unreadable report changes nothing); the options set the pick commands and
/// the OSC 52 switch; the pane id and the picked hints are kept; the OSC 52
/// step changes nothing.
pub open spec fn step_result(v: SwapperView, step: SwapperStep) -> SwapperView {
    match step {
        SwapperStep::CaptureActivePane(out) => match active_pane_report(out) {
            Ok(p) => SwapperView {
                active_pane_id: Some(p.id),
                active_pane_height: Some(p.height),
                active_pane_scroll_position: if p.scroll_position is Some {
                    p.scroll_position
                } else {
                    v.active_pane_scroll_position
                },
                active_pane_zoomed: Some(p.zoomed),
                ..v
            },
            Err(_) => v,
        },
        SwapperStep::ExecuteThumbs(options) => with_settings(
            v,
            apply_option_lines(settings(v, Seq::empty()), split_char(options, '\n')),
        ),
        SwapperStep::SetThumbsPane(id) => SwapperView { thumbs_pane_id: Some(id), ..v },
        SwapperStep::RetrieveContent(c) => SwapperView { content: Some(c), ..v },
        SwapperStep::SendOsc52 => v,
    }
}

/// The swapper after `steps`, in order.
pub open spec fn run_steps(v: SwapperView, steps: Seq<SwapperStep>) -> SwapperView
    decreases steps.len(),
{
    if steps.len() == 0 {
        v
    } else {
        step_result(run_steps(v, steps.drop_last()), steps.last())
    }
}

/// The option settings of `v`, with `args` as the arguments for `thumbs`.
pub open spec fn settings(v: SwapperView, args: Seq<Seq<char>>) -> OptionsState {
    OptionsState {
        command: v.command,
        upcase_command: v.upcase_command,
        multi_command: v.multi_command,
        osc52: v.osc52,
        args,
    }
}

/// `v` with the option settings of `st`.
pub open spec fn with_settings(v: SwapperView, st: OptionsState) -> SwapperView {
    SwapperView {
        command: st.command,
        upcase_command: st.upcase_command,
        multi_command: st.multi_command,
        osc52: st.osc52,
        ..v
    }
}

/// The tmux command that prints the active pane's content with its escape
/// sequences; when the scroll position is known, the lines from the top of the
/// scrolled view to its bottom.
pub open spec fn capture_command_spec(v: SwapperView) -> Seq<Seq<char>> {
    let base = seq!["tmux"@, "capture-pane"@, "-t"@, v.active_pane_id.unwrap(), "-p"@, "-e"@];
    match (v.active_pane_height, v.active_pane_scroll_position) {
        (Some(h), Some(sp)) => base + seq![
            "-S"@,
            int_decimal(-sp),
            "-E"@,
            int_decimal(h - sp - 1),
        ],
        _ => base,
    }
}

/// The part of the pane's shell command before the signal: `thumbs` on the
/// captured text with `args`, then the pane swapped back (and the window
/// zoomed again when it was).
pub open spec fn thumbs_run_command(v: SwapperView, args: Seq<Seq<char>>) -> Seq<char> {
    let id = v.active_pane_id.unwrap();
    let zoom = if v.active_pane_zoomed == Some(true) {
        "tmux resize-pane -t "@ + id + " -Z;"@
    } else {
        Seq::empty()
    };
    "("@ + v.dir + "/target/release/thumbs -f '%U:%H' -t "@ + tmp_file()
        + " --input /tmp/thumbs-captured.log "@ + join(args, " "@)
        + ") 2>/tmp/thumbs-stderr.log; tmux swap-pane -t "@ + id + "; "@ + zoom
}

/// The shell command run in the new window: `thumbs` and the swap back, then
/// the signal on the swapper's channel that the pick is done.
pub open spec fn thumbs_pane_command(v: SwapperView, args: Seq<Seq<char>>) -> Seq<char> {
    thumbs_run_command(v, args) + " tmux wait-for -S "@ + v.signal
}

/// The tmux command that opens the hidden window where `thumbs` runs, and
/// prints the id of its pane.
pub open spec fn window_command_spec(v: SwapperView, args: Seq<Seq<char>>) -> Seq<Seq<char>> {
    seq![
        "tmux"@,
        "new-window"@,
        "-P"@,
        "-F"@,
        "#{pane_id}"@,
        "-d"@,
        "-n"@,
        "[thumbs]"@,
        thumbs_pane_command(v, args),
    ]
}

/// The two commands that start a pick: the capture of the active pane, and
/// the window where `thumbs` runs.
pub struct ThumbsLaunch {
    pub capture_command: Vec<String>,
    pub window_command: Vec<String>,
}

/// Whether `v` is a true option value.
fn enabled(v: &[char]) -> (b: bool)
    ensures
        b == is_enabled(v@),
{
    chars_eq_str(v, "1") || chars_eq_str(v, "true")
}

/// Whether `name` is an option that is switched on by a true value.
fn flag_option(name: &[char]) -> (b: bool)
    ensures
        b == is_flag_option(name@),
{
    chars_eq_str(name, "reverse") || chars_eq_str(name, "unique") || chars_eq_str(name, "contrast")
        || chars_eq_str(name, "faint")
}

/// Whether `name` is an option whose value is handed on to `thumbs`.
fn valued_option(name: &[char]) -> (b: bool)
    ensures
        b == is_valued_option(name@),
{
    chars_eq_str(name, "alphabet") || chars_eq_str(name, "position") || chars_eq_str(
        name,
        "fg-color",
    ) || chars_eq_str(name, "bg-color") || chars_eq_str(name, "alt-bg-color") || chars_eq_str(
        name,
        "dim-color",
    ) || chars_eq_str(name, "hint-bg-color") || chars_eq_str(name, "hint-fg-color")
        || chars_eq_str(name, "select-fg-color") || chars_eq_str(name, "select-bg-color")
        || chars_eq_str(name, "multi-fg-color") || chars_eq_str(name, "multi-bg-color")
}

/// `value` in single quotes.
fn quote(value: &[char]) -> (r: Vec<char>)
    ensures
        r@ == single_quoted(value@),
{
    let mut r = to_chars("'");
    extend_chars(&mut r, value);
    let q = to_chars("'");
    extend_chars(&mut r, q.as_slice());
    r
}

/// Appends `x` to `args`.
fn push_arg(args: &mut Vec<Vec<char>>, x: Vec<char>)
    ensures
        views(final(args)@) == views(old(args)@).push(x@),
{
    let ghost a0 = args@;
    let ghost xv = x@;
    args.push(x);
    assert(views(args@) =~= views(a0).push(xv));
}

impl Swapper {
    /// Applies the option `name` set to `value`, collecting arguments for `thumbs` in `args`.
    fn apply_option(&mut self, args: &mut Vec<Vec<char>>, name: &[char], value: &[char])
        ensures
            ({
                let st = apply_option(settings(old(self)@, views(old(args)@)), name@, value@);
                &&& final(self)@ == with_settings(old(self)@, st)
                &&& views(final(args)@) == st.args
            }),
    {
        if chars_eq_str(name, "command") {
            self.command = from_chars(value);
        } else if chars_eq_str(name, "upcase-command") {
            self.upcase_command = from_chars(value);
        } else if chars_eq_str(name, "multi-command") {
            self.multi_command = from_chars(value);
        } else if chars_eq_str(name, "osc52") {
            self.osc52 = enabled(value);
        } else if flag_option(name) {
            if enabled(value) {
                let dashes = to_chars("--");
                push_arg(args, concat_chars(dashes.as_slice(), name));
            }
        } else if valued_option(name) {
            let dashes = to_chars("--");
            push_arg(args, concat_chars(dashes.as_slice(), name));
            push_arg(args, quote(value));
        } else {
            let regexp = to_chars("regexp");
            if starts_with(name, regexp.as_slice()) {
                push_arg(args, to_chars("--regexp"));
                let double = to_chars("\\\\");
                let single = to_chars("\\");
                proof {
                    reveal_strlit("\\\\");
                }
                let v = replace(value, double.as_slice(), single.as_slice());
                push_arg(args, quote(v.as_slice()));
            }
        }
    }

    /// Reads the options that `tmux show -g` printed: the pick commands and the
    /// OSC 52 switch are updated, and the two commands that start the pick are
    /// handed back (the capture of the active pane, then the window of `thumbs`).
    #[verifier::spinoff_prover]
    pub fn execute_thumbs(&mut self, options: &str) -> (r: ThumbsLaunch)
        requires
            old(self).active_pane_id is Some,
            old(self).active_pane_zoomed is Some,
            old(self).active_pane_height is Some && old(self).active_pane_scroll_position is Some
                ==> ({
                let h = old(self).active_pane_height.unwrap() as int;
                let sp = old(self).active_pane_scroll_position.unwrap() as int;
                sp > i32::MIN && i32::MIN <= h - sp - 1 <= i32::MAX
            }),
        ensures
            ({
                let st = apply_option_lines(
                    settings(old(self)@, Seq::empty()),
                    split_char(options@, '\n'),
                );
                &&& final(self)@ == step_result(old(self)@, SwapperStep::ExecuteThumbs(options@))
                &&& argv(r.capture_command@) == capture_command_spec(old(self)@)
                &&& argv(r.window_command@) == window_command_spec(old(self)@, st.args)
            }),
    {
        let capture_command = self.capture_command();
        let chars = to_chars(options);
        let lines = split(chars.as_slice(), '\n');
        let mut args: Vec<Vec<char>> = Vec::new();
        let ghost v0 = self@;
        let ghost start = settings(v0, Seq::empty());
        let mut i: usize = 0;
        assert(views(lines@).take(0) =~= Seq::<Seq<char>>::empty());
        assert(views(args@) =~= Seq::<Seq<char>>::empty());
        while i < lines.len()
            invariant
                i <= lines@.len(),
                settings(self@, views(args@)) == apply_option_lines(
                    start,
                    views(lines@).take(i as int),
                ),
                self@ == with_settings(v0, settings(self@, views(args@))),
            decreases lines.len() - i,
        {
            let ghost t = views(lines@).take(i + 1);
            assert(t.drop_last() =~= views(lines@).take(i as int));
            assert(t.last() == lines@[i as int]@);
            match parse_option_chars(lines[i].as_slice()) {
                Some((name, value)) => {
                    self.apply_option(&mut args, name.as_slice(), value.as_slice());
                },
                None => {},
            }
            i += 1;
        }
        assert(views(lines@).take(lines@.len() as int) =~= views(lines@));
        let window_command = self.window_command(&args);
        ThumbsLaunch { capture_command, window_command }
    }

    /// The command that captures the active pane.
    fn capture_command(&self) -> (r: Vec<String>)
        requires
            self.active_pane_id is Some,
            self.active_pane_height is Some && self.active_pane_scroll_position is Some ==> ({
                let h = self.active_pane_height.unwrap() as int;
                let sp = self.active_pane_scroll_position.unwrap() as int;
                sp > i32::MIN && i32::MIN <= h - sp - 1 <= i32::MAX
            }),
        ensures
            argv(r@) == capture_command_spec(self@),
    {
        let id = match &self.active_pane_id {
            Some(id) => id.clone(),
            None => String::new(),
        };
        let mut r = vec![
            "tmux".to_owned(),
            "capture-pane".to_owned(),
            "-t".to_owned(),
            id,
            "-p".to_owned(),
            "-e".to_owned(),
        ];
        let ghost base = r@;
        if let (Some(h), Some(sp)) = (self.active_pane_height, self.active_pane_scroll_position) {
            let start = i64_to_decimal(-(sp as i64));
            let end = i64_to_decimal((h as i64) - (sp as i64) - 1);
            r.push("-S".to_owned());
            r.push(from_chars(start.as_slice()));
            r.push("-E".to_owned());
            r.push(from_chars(end.as_slice()));
            assert(argv(r@) =~= capture_command_spec(self@));
        } else {
            assert(argv(r@) =~= capture_command_spec(self@));
        }
        r
    }

    /// The command that opens the window of `thumbs`, which gets `args`.
    fn window_command(&self, args: &Vec<Vec<char>>) -> (r: Vec<String>)
        requires
            self.active_pane_id is Some,
            self.active_pane_zoomed is Some,
        ensures
            argv(r@) == window_command_spec(self@, views(args@)),
    {
        let id = match &self.active_pane_id {
            Some(id) => id.clone(),
            None => String::new(),
        };
        let zoomed = match self.active_pane_zoomed {
            Some(z) => z,
            None => false,
        };
        let mut zoom = String::new();
        if zoomed {
            zoom.append("tmux resize-pane -t ");
            zoom.append(id.as_str());
            zoom.append(" -Z;");
        }
        let space = to_chars(" ");
        let joined = from_chars(join_chars(args.as_slice(), space.as_slice()).as_slice());
        let mut pane = "(".to_owned();
        pane.append(self.dir.as_str());
        pane.append("/target/release/thumbs -f '%U:%H' -t ");
        pane.append("/tmp/thumbs-last");
        pane.append(" --input /tmp/thumbs-captured.log ");
        pane.append(joined.as_str());
        pane.append(") 2>/tmp/thumbs-stderr.log; tmux swap-pane -t ");
        pane.append(id.as_str());
        pane.append("; ");
        pane.append(zoom.as_str());
        pane.append(" tmux wait-for -S ");
        pane.append(self.signal.as_str());
        let r = vec![
            "tmux".to_owned(),
            "new-window".to_owned(),
            "-P".to_owned(),
            "-F".to_owned(),
            "#{pane_id}".to_owned(),
            "-d".to_owned(),
            "-n".to_owned(),
            "[thumbs]".to_owned(),
            pane,
        ];
        assert(argv(r@) =~= window_command_spec(self@, views(args@)));
        r
    }

    /// Takes in what the window command printed: the id of the pane of `thumbs`.
    pub fn set_thumbs_pane(&mut self, output: String)
        ensures
            final(self)@ == step_result(old(self)@, SwapperStep::SetThumbsPane(output@)),
    {
        self.thumbs_pane_id = Some(output);
    }
}


/// What the pane shows of `captured`: each line without trailing spaces and
/// tabs, the empty lines at the end dropped, and then the last `height` lines
/// (all of them when `height` is negative).
pub open spec fn visible_lines(captured: Seq<char>, height: i32) -> Seq<char> {
    let lines = split_char(captured, '\n').map_values(|l: Seq<char>| trim_end_blanks(l));
    let kept = drop_trailing_empty(lines);
    let tail = if height < 0 || height > kept.len() {
        kept.len() as int
    } else {
        height as int
    };
    join(kept.skip(kept.len() - tail), "\n"@)
}

/// `[a]` when `a` is not empty, and nothing otherwise.
pub open spec fn nonempty_arg(a: Seq<char>) -> Seq<Seq<char>> {
    if a.len() > 0 {
        seq![a]
    } else {
        Seq::empty()
    }
}

/// The tmux command that swaps the active pane with the pane of `thumbs`
/// (an empty pane id is left out).
pub open spec fn swap_command_spec(v: SwapperView) -> Seq<Seq<char>> {
    seq!["tmux"@, "swap-pane"@, "-d"@, "-s"@] + nonempty_arg(v.active_pane_id.unwrap()) + seq![
        "-t"@,
    ] + nonempty_arg(v.thumbs_pane_id.unwrap())
}

/// The tmux command that zooms the pane of `thumbs`, when the active pane was zoomed.
pub open spec fn resize_command_spec(v: SwapperView) -> Option<Seq<Seq<char>>> {
    if v.active_pane_zoomed == Some(true) {
        Some(
            seq!["tmux"@, "resize-pane"@, "-t"@] + nonempty_arg(v.thumbs_pane_id.unwrap()) + seq![
                "-Z"@,
            ],
        )
    } else {
        None
    }
}

/// The tmux command that waits for the signal of `thumbs`.
pub open spec fn wait_command_spec(v: SwapperView) -> Seq<Seq<char>> {
    seq!["tmux"@, "wait-for"@, v.signal]
}

/// The command that prints the picked hints.
pub open spec fn retrieve_command_spec() -> Seq<Seq<char>> {
    seq!["cat"@, tmp_file()]
}

/// The command that removes the file of picked hints.
pub open spec fn destroy_command_spec() -> Seq<Seq<char>> {
    seq!["rm"@, tmp_file()]
}

/// A command of two words.
fn command_of(a: &str, b: &str) -> (r: Vec<String>)
    ensures
        argv(r@) == seq![a@, b@],
{
    let r = vec![a.to_owned(), b.to_owned()];
    assert(argv(r@) =~= seq![a@, b@]);
    r
}

/// Appends `a` to `r`.
fn push_string(r: &mut Vec<String>, a: String)
    ensures
        argv(final(r)@) == argv(old(r)@).push(a@),
{
    let ghost r0 = r@;
    let ghost av = a@;
    r.push(a);
    assert(argv(r@) =~= argv(r0).push(av));
}

/// Appends `a` to `r` when it is not empty.
fn push_nonempty(r: &mut Vec<String>, a: &String)
    ensures
        argv(final(r)@) == argv(old(r)@) + nonempty_arg(a@),
{
    let ghost r0 = r@;
    if !a.as_str().is_empty() {
        push_string(r, a.clone());
        assert(argv(r@) =~= argv(r0) + nonempty_arg(a@));
    } else {
        assert(argv(r@) =~= argv(r0) + nonempty_arg(a@));
    }
}

impl Swapper {
    /// The text to show in the pane of `thumbs`: what `captured` shows of the
    /// active pane, at most its height in lines (all lines when the height is unknown).
    #[verifier::spinoff_prover]
    pub fn visible_text(&self, captured: &str) -> (r: String)
        ensures
            r@ == visible_lines(
                captured@,
                match self.active_pane_height {
                    Some(h) => h,
                    None => i32::MAX,
                },
            ),
    {
        let height: i32 = match self.active_pane_height {
            Some(h) => h,
            None => i32::MAX,
        };
        let chars = to_chars(captured);
        let lines = split(chars.as_slice(), '\n');
        let ghost trimmed = split_char(captured@, '\n').map_values(
            |l: Seq<char>| trim_end_blanks(l),
        );
        let mut kept: Vec<Vec<char>> = Vec::new();
        let mut i: usize = 0;
        while i < lines.len()
            invariant
                i <= lines@.len(),
                views(lines@) == split_char(captured@, '\n'),
                trimmed == split_char(captured@, '\n').map_values(
                    |l: Seq<char>| trim_end_blanks(l),
                ),
                views(kept@) == trimmed.take(i as int),
            decreases lines.len() - i,
        {
            let mut line = vstd::slice::slice_to_vec(lines[i].as_slice());
            trim_end_blanks_in_place(&mut line);
            assert(line@ == trimmed[i as int]);
            push_arg(&mut kept, line);
            i += 1;
            assert(views(kept@) =~= trimmed.take(i as int));
        }
        assert(trimmed.take(lines@.len() as int) =~= trimmed);
        while kept.len() > 0 && kept[kept.len() - 1].len() == 0
            invariant
                drop_trailing_empty(views(kept@)) == drop_trailing_empty(trimmed),
            decreases kept.len(),
        {
            let ghost k0 = views(kept@);
            assert(k0.last() == kept@[kept@.len() - 1]@);
            kept.pop();
            assert(views(kept@) =~= k0.drop_last());
        }
        assert(drop_trailing_empty(views(kept@)) == views(kept@));
        let n = kept.len();
        let tail: usize = if height < 0 || height as usize > n {
            n
        } else {
            height as usize
        };
        let shown = vstd::slice::slice_subrange(kept.as_slice(), n - tail, n);
        assert(views(shown@) =~= views(kept@).skip(n - tail));
        let newline = to_chars("\n");
        from_chars(join_chars(shown, newline.as_slice()).as_slice())
    }

    /// The command that swaps the active pane with the pane of `thumbs`.
    pub fn swap_panes(&self) -> (r: Vec<String>)
        requires
            self.active_pane_id is Some,
            self.thumbs_pane_id is Some,
        ensures
            argv(r@) == swap_command_spec(self@),
    {
        let mut r = command_of("tmux", "swap-pane");
        push_string(&mut r, "-d".to_owned());
        push_string(&mut r, "-s".to_owned());
        match &self.active_pane_id {
            Some(id) => push_nonempty(&mut r, id),
            None => {},
        }
        push_string(&mut r, "-t".to_owned());
        match &self.thumbs_pane_id {
            Some(id) => push_nonempty(&mut r, id),
            None => {},
        }
        assert(argv(r@) =~= swap_command_spec(self@));
        r
    }

    /// The command that zooms the pane of `thumbs`, if the active pane was zoomed.
    pub fn resize_pane(&self) -> (r: Option<Vec<String>>)
        requires
            self.active_pane_zoomed is Some,
            self.active_pane_zoomed == Some(true) ==> self.thumbs_pane_id is Some,
        ensures
            match resize_command_spec(self@) {
                Some(c) => r matches Some(v) && argv(v@) == c,
                None => r is None,
            },
    {
        if self.active_pane_zoomed != Some(true) {
            return None;
        }
        let mut r = command_of("tmux", "resize-pane");
        push_string(&mut r, "-t".to_owned());
        match &self.thumbs_pane_id {
            Some(id) => push_nonempty(&mut r, id),
            None => {},
        }
        push_string(&mut r, "-Z".to_owned());
        assert(argv(r@) =~= resize_command_spec(self@)->Some_0);
        Some(r)
    }

    /// The command that waits until `thumbs` is done.
    pub fn wait_thumbs(&self) -> (r: Vec<String>)
        ensures
            argv(r@) == wait_command_spec(self@),
    {
        let mut r = command_of("tmux", "wait-for");
        push_string(&mut r, self.signal.clone());
        assert(argv(r@) =~= wait_command_spec(self@));
        r
    }

    /// The command that prints the picked hints.
    pub fn retrieve_content_command() -> (r: Vec<String>)
        ensures
            argv(r@) == retrieve_command_spec(),
    {
        command_of("cat", "/tmp/thumbs-last")
    }

    /// Takes in what the retrieve command printed: the picked hints.
    pub fn retrieve_content(&mut self, output: String)
        ensures
            final(self)@ == step_result(old(self)@, SwapperStep::RetrieveContent(output@)),
    {
        self.content = Some(output);
    }

    /// The command that removes the file of picked hints.
    pub fn destroy_content(&self) -> (r: Vec<String>)
        ensures
            argv(r@) == destroy_command_spec(),
    {
        command_of("rm", "/tmp/thumbs-last")
    }

    /// Sending OSC 52 is part of `execute_command`; this step changes nothing.
    pub fn send_osc52(&mut self)
        ensures
            final(self)@ == step_result(old(self)@, SwapperStep::SendOsc52),
    {
    }
}


/// The standard base64 encoding (RFC 4648 alphabet, with `=` padding) of `bytes`.
pub uninterp spec fn base64_standard(bytes: Seq<u8>) -> Seq<char>;

/// Whether the base64 encoding (with padding) of `n` bytes has a length that
/// fits in `usize`.
pub open spec fn base64_input_fits(n: int) -> bool {
    (n / 3) * 4 + (if n % 3 > 0 { 4int } else { 0int }) <= usize::MAX
}

/// The longest text, in bytes, that the OSC 52 copy accepts.
pub open spec fn osc52_max_bytes() -> int {
    (usize::MAX / 4) * 3
}

/// Encodes `bytes` with `base64::prelude::BASE64_STANDARD` (`Engine::encode`),
/// which panics when the length of the encoding overflows `usize`; the
/// contract names the result, and says nothing more of it.
#[verifier::external_body]
fn encode_base64(bytes: &[u8]) -> (r: String)
    requires
        base64_input_fits(bytes@.len() as int),
    ensures
        r@ == base64_standard(bytes@),
{
    base64::prelude::BASE64_STANDARD.encode(bytes)
}

/// The escape sequence that asks the terminal, through tmux, to copy the text
/// whose base64 encoding is `b64`: an OSC 52 sequence for the clipboard,
/// with its escape characters doubled, inside a tmux passthrough sequence.
pub open spec fn osc52_sequence_spec(b64: Seq<char>) -> Seq<char> {
    "\x1bPtmux;"@ + replace_all("\x1b]52;0;"@ + b64 + "\x07"@, "\x1b"@, "\x1b\x1b"@) + "\x1b\\"@
}

/// The escape sequence that copies the text whose base64 encoding is `b64`.
pub fn osc52_sequence(b64: &str) -> (r: String)
    ensures
        r@ == osc52_sequence_spec(b64@),
{
    let mut osc = "\x1b]52;0;".to_owned();
    osc.append(b64);
    osc.append("\x07");
    let osc_chars = to_chars(osc.as_str());
    let esc = to_chars("\x1b");
    let esc2 = to_chars("\x1b\x1b");
    proof {
        reveal_strlit("\x1b");
    }
    let doubled = replace(osc_chars.as_slice(), esc.as_slice(), esc2.as_slice());
    let mut r = "\x1bPtmux;".to_owned();
    r.append(from_chars(doubled.as_slice()).as_str());
    r.append("\x1b\\");
    r
}

/// The command that runs the user's pick command `cmd` on `text`: `text` is
/// handed to bash as an argument and bound to `THUMB`, and `cmd` is evaluated
/// with `{}` turned into `${THUMB}` and `{active_pane}` into the active pane's id.
pub open spec fn final_command_spec(
    text: Seq<char>,
    cmd: Seq<char>,
    active: Option<Seq<char>>,
) -> Seq<Seq<char>> {
    let with_thumb = replace_all(cmd, "{}"@, "${THUMB}"@);
    let script = match active {
        Some(p) => replace_all(with_thumb, "{active_pane}"@, p),
        None => with_thumb,
    };
    seq!["bash"@, "-c"@, "THUMB=\"$1\"; eval \"$2\""@, "--"@, text, script]
}

/// The text of a picked hint, which `thumbs` prints as `upcase:text`.
pub open spec fn hint_text_of(item: Seq<char>) -> Seq<char> {
    match split_once(item, ':').1 {
        Some(rest) => rest,
        None => item,
    }
}

/// What to do with the picked hints: the OSC 52 sequence to print, if any,
/// then the command to run, if any.
pub struct PickAction {
    pub osc52: Option<String>,
    pub command: Option<Vec<String>>,
}

/// What to do with the picked hints `content`: several hints (one per line)
/// are joined with spaces and handed to the multi command; a single
/// `upcase:text` hint goes to the upcase command when `upcase` is `true`
/// (trailing whitespace ignored), else to the command, with its trailing
/// whitespace trimmed, and is also copied through OSC 52 when that is on.
pub open spec fn pick_action_spec(v: SwapperView) -> (Option<Seq<char>>, Option<Seq<Seq<char>>>) {
    let items = split_char(v.content.unwrap(), '\n');
    if items.len() > 1 {
        (
            None,
            Some(
                final_command_spec(
                    join(items.map_values(|it: Seq<char>| hint_text_of(it)), " "@),
                    v.multi_command,
                    v.active_pane_id,
                ),
            ),
        )
    } else {
        let (upcase, text) = split_once(items[0], ':');
        match text {
            None => (None, None),
            Some(t) => (
                if v.osc52 {
                    Some(osc52_sequence_spec(base64_standard(encode_utf8(t))))
                } else {
                    None
                },
                Some(
                    final_command_spec(
                        trim_end_ws(t),
                        if trim_end_ws(upcase) == "true"@ {
                            v.upcase_command
                        } else {
                            v.command
                        },
                        v.active_pane_id,
                    ),
                ),
            ),
        }
    }
}

proof fn lemma_split_single(s: Seq<char>, c: char)
    requires
        split_char(s, c).len() == 1,
    ensures
        split_char(s, c)[0] == s,
    decreases s.len(),
{
    if s.len() > 0 {
        lemma_split_char_nonempty(s.drop_last(), c);
        lemma_split_single(s.drop_last(), c);
        assert(s.drop_last().push(s.last()) =~= s);
    }
}

proof fn lemma_encode_skip_len(s: Seq<char>, k: int)
    requires
        0 <= k <= s.len(),
    ensures
        encode_utf8(s.skip(k)).len() <= encode_utf8(s).len(),
    decreases k,
{
    if k > 0 {
        lemma_encode_skip_len(s.drop_first(), k - 1);
        assert(s.drop_first().skip(k - 1) =~= s.skip(k));
    } else {
        assert(s.skip(0) =~= s);
    }
}

proof fn lemma_base64_fits(n: int)
    requires
        0 <= n <= osc52_max_bytes(),
    ensures
        base64_input_fits(n),
{
    let m = usize::MAX as int;
    assert(m % 4 == 3) by {
        assert(usize::MAX == 0xffff_ffff || usize::MAX == 0xffff_ffff_ffff_ffff);
    }
    let q = m / 4;
    assert(m == 4 * q + 3);
    let a = n / 3;
    let r = n % 3;
    assert(n == 3 * a + r);
    assert(0 <= r < 3);
    assert(n <= 3 * q);
    if r > 0 {
        assert(a <= q - 1);
        assert(4 * a + 4 <= 4 * q);
    } else {
        assert(a <= q);
    }
}

/// The text of the hint `item`.
fn hint_text(item: &[char]) -> (r: Vec<char>)
    ensures
        r@ == hint_text_of(item@),
{
    match find_char(item, ':') {
        Some(k) => {
            assert(k < item.len());
            let r = vstd::slice::slice_to_vec(vstd::slice::slice_subrange(item, k + 1, item.len()));
            assert(r@ =~= item@.skip(k + 1));
            r
        },
        None => vstd::slice::slice_to_vec(item),
    }
}

impl Swapper {
    /// The command that runs `execute_command` on `text`.
    pub fn execute_final_command(&self, text: &str, execute_command: &str) -> (r: Vec<String>)
        ensures
            argv(r@) == final_command_spec(text@, execute_command@, self@.active_pane_id),
    {
        let cmd = to_chars(execute_command);
        let braces = to_chars("{}");
        let thumb = to_chars("${THUMB}");
        proof {
            reveal_strlit("{}");
        }
        let mut script = replace(cmd.as_slice(), braces.as_slice(), thumb.as_slice());
        match &self.active_pane_id {
            Some(p) => {
                let marker = to_chars("{active_pane}");
                let pane = to_chars(p.as_str());
                proof {
                    reveal_strlit("{active_pane}");
                }
                script = replace(script.as_slice(), marker.as_slice(), pane.as_slice());
            },
            None => {},
        }
        let r = vec![
            "bash".to_owned(),
            "-c".to_owned(),
            "THUMB=\"$1\"; eval \"$2\"".to_owned(),
            "--".to_owned(),
            text.to_owned(),
            from_chars(script.as_slice()),
        ];
        assert(argv(r@) =~= final_command_spec(text@, execute_command@, self@.active_pane_id));
        r
    }

    /// What to do with the picked hints.
    #[verifier::spinoff_prover]
    pub fn execute_command(&self) -> (r: PickAction)
        requires
            self.content is Some,
            self.osc52 ==> encode_utf8(self.content.unwrap()@).len() <= osc52_max_bytes(),
        ensures
            opt_view(r.osc52) == pick_action_spec(self@).0,
            match pick_action_spec(self@).1 {
                Some(c) => r.command matches Some(v) && argv(v@) == c,
                None => r.command is None,
            },
    {
        let content = match &self.content {
            Some(c) => to_chars(c.as_str()),
            None => Vec::new(),
        };
        let items = split(content.as_slice(), '\n');
        assert(views(items@)[0] == items@[0]@);
        if items.len() > 1 {
            let mut texts: Vec<Vec<char>> = Vec::new();
            let mut i: usize = 0;
            let ghost mapped = views(items@).map_values(|it: Seq<char>| hint_text_of(it));
            while i < items.len()
                invariant
                    i <= items@.len(),
                    mapped == views(items@).map_values(|it: Seq<char>| hint_text_of(it)),
                    views(texts@) == mapped.take(i as int),
                decreases items.len() - i,
            {
                let t = hint_text(items[i].as_slice());
                assert(t@ == mapped[i as int]);
                push_arg(&mut texts, t);
                i += 1;
                assert(views(texts@) =~= mapped.take(i as int));
            }
            assert(mapped.take(items@.len() as int) =~= mapped);
            let space = to_chars(" ");
            let text = from_chars(join_chars(texts.as_slice(), space.as_slice()).as_slice());
            let cmd = self.execute_final_command(text.as_str(), self.multi_command.as_str());
            return PickAction { osc52: None, command: Some(cmd) };
        }
        let item = &items[0];
        match find_char(item.as_slice(), ':') {
            None => PickAction { osc52: None, command: None },
            Some(k) => {
                assert(k < item.len());
                let upcase = vstd::slice::slice_to_vec(vstd::slice::slice_subrange(item.as_slice(), 0, k));
                let text = vstd::slice::slice_to_vec(
                    vstd::slice::slice_subrange(item.as_slice(), k + 1, item.len()),
                );
                assert(upcase@ =~= item@.take(k as int));
                assert(text@ =~= item@.skip(k + 1));
                let osc52 = if self.osc52 {
                    let text_string = from_chars(text.as_slice());
                    proof {
                        lemma_split_char_nonempty(content@, '\n');
                        lemma_split_single(content@, '\n');
                        lemma_encode_skip_len(item@, k + 1);
                        lemma_base64_fits(encode_utf8(text@).len() as int);
                    }
                    let b64 = encode_base64(text_string.as_str().as_bytes());
                    Some(osc52_sequence(b64.as_str()))
                } else {
                    None
                };
                let mut trimmed_upcase = upcase;
                trim_end_in_place(&mut trimmed_upcase);
                let mut trimmed_text = text;
                trim_end_in_place(&mut trimmed_text);
                let text_string = from_chars(trimmed_text.as_slice());
                let cmd = if chars_eq_str(trimmed_upcase.as_slice(), "true") {
                    self.execute_final_command(text_string.as_str(), self.upcase_command.as_str())
                } else {
                    self.execute_final_command(text_string.as_str(), self.command.as_str())
                };
                PickAction { osc52, command: Some(cmd) }
            },
        }
    }
}


/// The picked text reaches the user's command only as a separate argument of
/// bash, bound to `THUMB`: the command handed to bash is the same whatever
/// the text, so no text can change what is run.
pub proof fn lemma_text_never_spliced(
    text: Seq<char>,
    other: Seq<char>,
    cmd: Seq<char>,
    active: Option<Seq<char>>,
)
    ensures
        final_command_spec(text, cmd, active).len() == 6,
        final_command_spec(text, cmd, active)[4] == text,
        final_command_spec(text, cmd, active)[5] == final_command_spec(other, cmd, active)[5],
{
}

/// No argument of the swap and zoom commands is empty: an empty pane id is
/// left out rather than handed to tmux.
pub proof fn lemma_pane_commands_have_no_empty_args(v: SwapperView)
    requires
        v.active_pane_id is Some,
        v.thumbs_pane_id is Some,
    ensures
        forall|k: int|
            0 <= k < swap_command_spec(v).len() ==> #[trigger] swap_command_spec(v)[k].len() > 0,
        resize_command_spec(v) matches Some(c) ==> forall|k: int|
            0 <= k < c.len() ==> #[trigger] c[k].len() > 0,
{
    reveal_strlit("tmux");
    reveal_strlit("swap-pane");
    reveal_strlit("-d");
    reveal_strlit("-s");
    reveal_strlit("-t");
    reveal_strlit("resize-pane");
    reveal_strlit("-Z");
    let a = nonempty_arg(v.active_pane_id.unwrap());
    let b = nonempty_arg(v.thumbs_pane_id.unwrap());
    let s = swap_command_spec(v);
    assert forall|k: int| 0 <= k < s.len() implies #[trigger] s[k].len() > 0 by {
        if k >= 4 && k < 4 + a.len() {
            assert(s[k] == a[k - 4]);
        } else if k >= 5 + a.len() {
            assert(s[k] == b[k - 5 - a.len()]);
        }
    }
    if let Some(c) = resize_command_spec(v) {
        assert forall|k: int| 0 <= k < c.len() implies #[trigger] c[k].len() > 0 by {
            if k >= 3 && k < 3 + b.len() {
                assert(c[k] == b[k - 3]);
            }
        }
    }
}


/// The number of lines of `s`: none for empty text, else one more than its newlines.
pub open spec fn line_count(s: Seq<char>) -> nat {
    if s.len() == 0 {
        0
    } else {
        count_char(s, '\n') + 1
    }
}

proof fn lemma_trim_blanks_keeps_absence(l: Seq<char>, c: char)
    requires
        !l.contains(c),
    ensures
        !trim_end_blanks(l).contains(c),
    decreases l.len(),
{
    if l.len() > 0 && (l.last() == ' ' || l.last() == '\t') {
        assert(!l.drop_last().contains(c)) by {
            if l.drop_last().contains(c) {
                let k = choose|k: int| 0 <= k < l.drop_last().len() && l.drop_last()[k] == c;
                assert(l[k] == c);
            }
        }
        lemma_trim_blanks_keeps_absence(l.drop_last(), c);
    }
}

proof fn lemma_drop_trailing_empty_prefix(lines: Seq<Seq<char>>)
    ensures
        drop_trailing_empty(lines).len() <= lines.len(),
        drop_trailing_empty(lines) == lines.take(drop_trailing_empty(lines).len() as int),
    decreases lines.len(),
{
    if lines.len() > 0 && lines.last().len() == 0 {
        lemma_drop_trailing_empty_prefix(lines.drop_last());
        let d = drop_trailing_empty(lines.drop_last());
        assert(lines.drop_last().take(d.len() as int) =~= lines.take(d.len() as int));
    } else {
        assert(lines.take(lines.len() as int) =~= lines);
    }
}

/// What is shown of a capture never has more lines than the pane is high.
pub proof fn lemma_visible_lines_fit(captured: Seq<char>, height: i32)
    requires
        height >= 0,
    ensures
        line_count(visible_lines(captured, height)) <= height,
{
    reveal_strlit("\n");
    assert("\n"@ =~= seq!['\n']);
    let pieces = split_char(captured, '\n');
    lemma_split_pieces_lack_sep(captured, '\n');
    let lines = pieces.map_values(|l: Seq<char>| trim_end_blanks(l));
    assert forall|k: int| 0 <= k < lines.len() implies !(#[trigger] lines[k]).contains('\n') by {
        lemma_trim_blanks_keeps_absence(pieces[k], '\n');
    }
    let kept = drop_trailing_empty(lines);
    lemma_drop_trailing_empty_prefix(lines);
    let tail_len = if height < 0 || height > kept.len() {
        kept.len() as int
    } else {
        height as int
    };
    let tail = kept.skip(kept.len() - tail_len);
    assert forall|k: int| 0 <= k < tail.len() implies !(#[trigger] tail[k]).contains('\n') by {
        assert(tail[k] == kept[kept.len() - tail_len + k]);
        assert(kept[kept.len() - tail_len + k] == lines[kept.len() - tail_len + k]);
    }
    if tail.len() > 0 {
        lemma_join_count(tail, '\n');
    } else {
        assert(join(tail, "\n"@).len() == 0);
    }
}


/// When the scroll position is known, the capture covers exactly as many
/// lines as the pane is high, starting at the top of the scrolled view.
pub proof fn lemma_capture_spans_height(v: SwapperView)
    requires
        v.active_pane_height is Some,
        v.active_pane_scroll_position is Some,
    ensures
        capture_command_spec(v).len() == 10,
        ({
            let h = v.active_pane_height.unwrap() as int;
            let sp = v.active_pane_scroll_position.unwrap() as int;
            exists|first: int, last: int|
                capture_command_spec(v)[7] == int_decimal(first) && capture_command_spec(v)[9]
                    == int_decimal(last) && first == -sp && last - first + 1 == h
        }),
{
    let h = v.active_pane_height.unwrap() as int;
    let sp = v.active_pane_scroll_position.unwrap() as int;
    assert(capture_command_spec(v)[7] == int_decimal(-sp));
    assert(capture_command_spec(v)[9] == int_decimal(h - sp - 1));
}

/// Whether `s` ends with `suffix`.
pub open spec fn ends_with(s: Seq<char>, suffix: Seq<char>) -> bool {
    suffix.len() <= s.len() && s.subrange(s.len() - suffix.len(), s.len() as int) == suffix
}

/// No step changes the channel on which a swapper waits.
pub proof fn lemma_steps_keep_signal(v: SwapperView, steps: Seq<SwapperStep>)
    ensures
        run_steps(v, steps).signal == v.signal,
    decreases steps.len(),
{
    if steps.len() > 0 {
        lemma_steps_keep_signal(v, steps.drop_last());
    }
}

/// The channel that `wait_thumbs` waits on is the one that the pane of
/// `thumbs` signals: for a swapper started `started_at` seconds after the
/// Unix epoch, after any steps `before`, the pane command in the window
/// command of `execute_thumbs` (whatever the arguments for `thumbs`) ends
/// with `tmux wait-for -S` on the channel `thumbs-finished-` followed by
/// `started_at`; after any further steps `after`, the wait command is
/// `tmux wait-for` on that same channel.
pub proof fn lemma_wait_matches_pane_signal(
    dir: Seq<char>,
    command: Seq<char>,
    upcase_command: Seq<char>,
    multi_command: Seq<char>,
    osc52: bool,
    started_at: u64,
    before: Seq<SwapperStep>,
    args: Seq<Seq<char>>,
    after: Seq<SwapperStep>,
)
    ensures
        ({
            let v0 = started_view(dir, command, upcase_command, multi_command, osc52, started_at);
            let v1 = run_steps(v0, before);
            let v2 = run_steps(v1, after);
            &&& ends_with(
                window_command_spec(v1, args)[8],
                " tmux wait-for -S "@ + signal_name(started_at),
            )
            &&& wait_command_spec(v2) == seq!["tmux"@, "wait-for"@, signal_name(started_at)]
        }),
{
    let v0 = started_view(dir, command, upcase_command, multi_command, osc52, started_at);
    let v1 = run_steps(v0, before);
    lemma_steps_keep_signal(v0, before);
    lemma_steps_keep_signal(v1, after);
    let pane = thumbs_pane_command(v1, args);
    let pre = thumbs_run_command(v1, args);
    let sfx = " tmux wait-for -S "@ + signal_name(started_at);
    assert(pane =~= pre + sfx);
    assert(pane.subrange(pane.len() - sfx.len(), pane.len() as int) =~= sfx);
}

/// The pane command of the `thumbs` window zooms the window again only when
/// the active pane was zoomed: it is the run of `thumbs` and the swap back,
/// then `tmux resize-pane -t <id> -Z;` when the pane was zoomed and nothing
/// otherwise, then the signal on the swapper's channel.
pub proof fn lemma_zoom_only_when_zoomed(v: SwapperView, args: Seq<Seq<char>>)
    requires
        v.active_pane_id is Some,
    ensures
        ({
            let id = v.active_pane_id->Some_0;
            let run = "("@ + v.dir + "/target/release/thumbs -f '%U:%H' -t "@ + "/tmp/thumbs-last"@
                + " --input /tmp/thumbs-captured.log "@ + join(args, " "@)
                + ") 2>/tmp/thumbs-stderr.log; tmux swap-pane -t "@ + id + "; "@;
            let signal = " tmux wait-for -S "@ + v.signal;
            let pane = window_command_spec(v, args)[8];
            &&& v.active_pane_zoomed == Some(true) ==> pane == run + ("tmux resize-pane -t "@ + id
                + " -Z;"@) + signal
            &&& v.active_pane_zoomed != Some(true) ==> pane == run + signal
        }),
{
    let id = v.active_pane_id->Some_0;
    let run = "("@ + v.dir + "/target/release/thumbs -f '%U:%H' -t "@ + "/tmp/thumbs-last"@
        + " --input /tmp/thumbs-captured.log "@ + join(args, " "@)
        + ") 2>/tmp/thumbs-stderr.log; tmux swap-pane -t "@ + id + "; "@;
    if v.active_pane_zoomed != Some(true) {
        assert(run + Seq::<char>::empty() =~= run);
    }
}

/// With OSC 52 on, a single pick `flag:text` is copied through OSC 52 as the
/// base64 of the UTF-8 bytes of `text`, whatever its flag (upper case or
/// not); with OSC 52 off nothing is copied, and several picks are never
/// copied.
pub proof fn lemma_single_pick_copied(v: SwapperView)
    requires
        v.content is Some,
    ensures
        ({
            let items = split_char(v.content->Some_0, '\n');
            let osc = pick_action_spec(v).0;
            &&& items.len() > 1 ==> osc is None
            &&& items.len() <= 1 ==> match split_once(items[0], ':').1 {
                Some(t) => osc == if v.osc52 {
                    Some(osc52_sequence_spec(base64_standard(encode_utf8(t))))
                } else {
                    None::<Seq<char>>
                },
                None => osc is None,
            }
        }),
{
}

} // verus!
