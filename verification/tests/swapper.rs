use tmux_thumbs::options::parse_option_line;
use tmux_thumbs::swapper::{active_pane_command, osc52_sequence, parse_active_pane, PaneReportError, Swapper};

fn new_swapper(command: &str, upcase: &str, multi: &str, osc52: bool) -> Swapper {
    Swapper::new(
        "".to_string(),
        command.to_string(),
        upcase.to_string(),
        multi.to_string(),
        osc52,
        0,
    )
}

#[test]
fn retrieve_active_pane() {
    let mut swapper = new_swapper("", "", "", false);
    swapper.capture_active_pane("%97:0:24::0:active");
    assert_eq!(swapper.active_pane_id.unwrap(), "%97");
}

#[test]
fn swap_panes() {
    let mut swapper = new_swapper("", "", "", false);
    swapper.capture_active_pane("%98:0:24::0:active");
    let _launch = swapper.execute_thumbs("");
    let _shown = swapper.visible_text("/tmp/some_path\n");
    swapper.set_thumbs_pane("%100".to_string());
    let expectation = vec!["tmux", "swap-pane", "-d", "-s", "%98", "-t", "%100"];
    assert_eq!(swapper.swap_panes(), expectation);
}

#[test]
fn quoted_execution() {
    let user_command = "echo \"{active_pane} {}\"".to_string();
    let upcase_command = "open \"{}\"".to_string();
    let multi_command = "open \"{}\"".to_string();
    let mut swapper = Swapper::new(
        "".to_string(),
        user_command,
        upcase_command,
        multi_command,
        false,
        0,
    );
    swapper.active_pane_id = Some("%99".to_string());
    swapper.content = Some(format!(
        "{do_upcase}:{thumb_text}",
        do_upcase = false,
        thumb_text = "foobar;rm *",
    ));
    let action = swapper.execute_command();
    let expectation = vec![
        "bash",
        "-c",
        "THUMB=\"$1\"; eval \"$2\"",
        "--",
        "foobar;rm *",
        "echo \"%99 ${THUMB}\"",
    ];
    assert_eq!(action.command.unwrap(), expectation);
    assert!(action.osc52.is_none());
}

#[test]
fn test_parse_option_line() {
    assert_eq!(
        parse_option_line(r#"@thumbs-command "tmux set-buffer -w {}""#),
        Some(("command".to_string(), "tmux set-buffer -w {}".to_string()))
    );
    assert_eq!(
        parse_option_line(r#"@thumbs-upcase-command "\~/.dotfiles/tmux/run-tmux-fingers \"{}\"""#),
        Some(("upcase-command".to_string(), r#"~/.dotfiles/tmux/run-tmux-fingers "{}""#.to_string()))
    );
    assert_eq!(
        parse_option_line(r#"@thumbs-unique 1"#),
        Some(("unique".to_string(), "1".to_string()))
    );
    assert_eq!(
        parse_option_line(r#"@thumbs-regexp-1 "[0-9]+""#),
        Some(("regexp-1".to_string(), "[0-9]+".to_string()))
    );
    assert_eq!(parse_option_line(r#"not-a-thumbs-option value"#), None);
}

#[test]
fn option_line_edge_cases() {
    assert_eq!(parse_option_line("@thumbs-unique"), None);
    assert_eq!(parse_option_line(" @thumbs-unique 1"), None);
    assert_eq!(
        parse_option_line("@thumbs-position   'off_left'  "),
        Some(("position".to_string(), "off_left".to_string()))
    );
    assert_eq!(
        parse_option_line("@thumbs-x \""),
        Some(("x".to_string(), "".to_string()))
    );
    assert_eq!(
        parse_option_line("@thumbs-x \"a\\\\b\""),
        Some(("x".to_string(), "a\\b".to_string()))
    );
    assert_eq!(parse_option_line("@thumbs- v"), Some(("".to_string(), "v".to_string())));
}

#[test]
fn active_pane_report_in_mode() {
    let mut swapper = new_swapper("", "", "", false);
    swapper.capture_active_pane("%1:1:30:5:1:active");
    assert_eq!(swapper.active_pane_id.as_deref(), Some("%1"));
    assert_eq!(swapper.active_pane_height, Some(30));
    assert_eq!(swapper.active_pane_scroll_position, Some(5));
    assert_eq!(swapper.active_pane_zoomed, Some(true));
    let launch = swapper.execute_thumbs("");
    assert_eq!(
        launch.capture_command,
        vec!["tmux", "capture-pane", "-t", "%1", "-p", "-e", "-S", "-5", "-E", "24"]
    );
}

#[test]
fn active_pane_report_errors() {
    assert_eq!(parse_active_pane("%1:0").err(), Some(PaneReportError::MissingHeight));
    assert_eq!(parse_active_pane("%1:0:abc:0:0").err(), Some(PaneReportError::InvalidHeight));
    assert_eq!(parse_active_pane("%1:1:24").err(), Some(PaneReportError::MissingScrollPosition));
    assert_eq!(parse_active_pane("%1:1:24:x:0").err(), Some(PaneReportError::InvalidScrollPosition));
    assert_eq!(parse_active_pane("%1:0:24:").err(), Some(PaneReportError::MissingZoomFlag));
    assert_eq!(parse_active_pane("%1:0:2147483648:0:0").err(), Some(PaneReportError::InvalidHeight));
    let pane = parse_active_pane("%3:0:-7::0").unwrap();
    assert_eq!(pane.id, "%3");
    assert_eq!(pane.height, -7);
    assert_eq!(pane.scroll_position, None);
    assert!(!pane.zoomed);
    assert_eq!(
        active_pane_command(),
        vec![
            "tmux",
            "display-message",
            "-p",
            "#{pane_id}:#{?pane_in_mode,1,0}:#{pane_height}:#{scroll_position}:#{window_zoomed_flag}:active"
        ]
    );
}

#[test]
fn thumbs_options_and_window() {
    let mut swapper = Swapper::new(
        "/home/me/thumbs".to_string(),
        "c".to_string(),
        "u".to_string(),
        "m".to_string(),
        false,
        1700000000,
    );
    swapper.capture_active_pane("%5:0:10::1:active");
    let options = [
        "@thumbs-command \"echo {}\"",
        "@thumbs-reverse 1",
        "@thumbs-unique false",
        "@thumbs-alphabet qwerty",
        "@thumbs-regexp-1 '[a-z]\\\\d'",
        "@thumbs-osc52 true",
        "status on",
        "@thumbs-unknown 1",
    ]
    .join("\n");
    let launch = swapper.execute_thumbs(&options);
    assert_eq!(swapper.command, "echo {}");
    assert_eq!(swapper.upcase_command, "u");
    assert!(swapper.osc52);
    assert_eq!(swapper.signal, "thumbs-finished-1700000000");
    assert_eq!(launch.capture_command, vec!["tmux", "capture-pane", "-t", "%5", "-p", "-e"]);
    let pane = "(/home/me/thumbs/target/release/thumbs -f '%U:%H' -t /tmp/thumbs-last --input /tmp/thumbs-captured.log --reverse --alphabet 'qwerty' --regexp '[a-z]\\d') 2>/tmp/thumbs-stderr.log; tmux swap-pane -t %5; tmux resize-pane -t %5 -Z; tmux wait-for -S thumbs-finished-1700000000";
    assert_eq!(
        launch.window_command,
        vec!["tmux", "new-window", "-P", "-F", "#{pane_id}", "-d", "-n", "[thumbs]", pane]
    );
}

#[test]
fn visible_text_trims_and_tails() {
    let mut swapper = new_swapper("", "", "", false);
    swapper.capture_active_pane("%1:0:2::0:active");
    assert_eq!(swapper.visible_text("a  \nb\t\nc \n\n  \n"), "b\nc");
    swapper.active_pane_height = None;
    assert_eq!(swapper.visible_text("a  \nb\t\nc \n\n  \n"), "a\nb\nc");
    swapper.active_pane_height = Some(-1);
    assert_eq!(swapper.visible_text("x\ny"), "x\ny");
    swapper.active_pane_height = Some(0);
    assert_eq!(swapper.visible_text("x\ny"), "");
    assert_eq!(swapper.visible_text(""), "");
}

#[test]
fn pane_commands() {
    let mut swapper = new_swapper("", "", "", false);
    swapper.capture_active_pane("%2:0:10::0:active");
    swapper.set_thumbs_pane("%9".to_string());
    assert_eq!(swapper.resize_pane(), None);
    swapper.active_pane_zoomed = Some(true);
    assert_eq!(
        swapper.resize_pane(),
        Some(vec!["tmux".to_string(), "resize-pane".to_string(), "-t".to_string(), "%9".to_string(), "-Z".to_string()])
    );
    swapper.thumbs_pane_id = Some("".to_string());
    assert_eq!(swapper.swap_panes(), vec!["tmux", "swap-pane", "-d", "-s", "%2", "-t"]);
    assert_eq!(swapper.wait_thumbs(), vec!["tmux", "wait-for", "thumbs-finished-0"]);
    assert_eq!(Swapper::retrieve_content_command(), vec!["cat", "/tmp/thumbs-last"]);
    assert_eq!(swapper.destroy_content(), vec!["rm", "/tmp/thumbs-last"]);
    swapper.retrieve_content("false:x".to_string());
    assert_eq!(swapper.content.as_deref(), Some("false:x"));
}

#[test]
fn osc52_copy_sequence() {
    let mut swapper = new_swapper("copy {}", "up {}", "multi {}", true);
    swapper.content = Some("false:hello".to_string());
    let action = swapper.execute_command();
    assert_eq!(action.osc52.unwrap(), "\x1bPtmux;\x1b\x1b]52;0;aGVsbG8=\x07\x1b\\");
    assert_eq!(
        action.command.unwrap(),
        vec!["bash", "-c", "THUMB=\"$1\"; eval \"$2\"", "--", "hello", "copy ${THUMB}"]
    );
    assert_eq!(osc52_sequence("QQ=="), "\x1bPtmux;\x1b\x1b]52;0;QQ==\x07\x1b\\");
}

#[test]
fn upcase_and_multi_picks() {
    let mut swapper = new_swapper("copy {}", "up {}", "multi {}", false);
    swapper.content = Some("true  :text with space  ".to_string());
    let action = swapper.execute_command();
    assert_eq!(
        action.command.unwrap(),
        vec!["bash", "-c", "THUMB=\"$1\"; eval \"$2\"", "--", "text with space", "up ${THUMB}"]
    );
    swapper.content = Some("true:foo\nfalse:bar:baz\nplain".to_string());
    let action = swapper.execute_command();
    assert_eq!(
        action.command.unwrap(),
        vec!["bash", "-c", "THUMB=\"$1\"; eval \"$2\"", "--", "foo bar:baz plain", "multi ${THUMB}"]
    );
    swapper.content = Some("no colon".to_string());
    let action = swapper.execute_command();
    assert!(action.command.is_none());
    assert!(action.osc52.is_none());
}

#[test]
fn final_command_without_active_pane() {
    let swapper = new_swapper("", "", "", false);
    assert_eq!(
        swapper.execute_final_command("t", "x {} {active_pane} {}"),
        vec!["bash", "-c", "THUMB=\"$1\"; eval \"$2\"", "--", "t", "x ${THUMB} {active_pane} ${THUMB}"]
    );
}

#[test]
fn send_osc52_changes_nothing() {
    let mut swapper = new_swapper("a", "b", "c", true);
    swapper.send_osc52();
    assert_eq!(swapper.command, "a");
    assert!(swapper.osc52);
}

#[test]
fn text_is_never_spliced_into_the_script() {
    let mut swapper = new_swapper("", "", "", false);
    swapper.active_pane_id = Some("%4".to_string());
    let a = swapper.execute_final_command("$(rm -rf ~)", "echo {}");
    let b = swapper.execute_final_command("plain", "echo {}");
    assert_eq!(a[4], "$(rm -rf ~)");
    assert_eq!(a[5], b[5]);
    assert_eq!(a[5], "echo ${THUMB}");
}

#[test]
fn last_option_line_wins() {
    let mut swapper = new_swapper("first", "", "", false);
    swapper.capture_active_pane("%1:0:10::0:active");
    let _ = swapper.execute_thumbs("@thumbs-command one\nnot an option\n@thumbs-command two\n@thumbs-osc52 1");
    assert_eq!(swapper.command, "two");
    assert!(swapper.osc52);
    let _ = swapper.execute_thumbs("@thumbs-osc52 no");
    assert!(!swapper.osc52);
    assert_eq!(swapper.command, "two");
}

#[test]
fn visible_text_never_exceeds_height() {
    let mut swapper = new_swapper("", "", "", false);
    swapper.capture_active_pane("%1:0:3::0:active");
    let shown = swapper.visible_text("1\n2\n3\n4\n5\n6");
    assert_eq!(shown, "4\n5\n6");
    assert!(shown.lines().count() <= 3);
}

#[test]
fn wait_channel_is_the_signalled_one() {
    let mut swapper = Swapper::new(
        "/opt/thumbs".to_string(),
        "c".to_string(),
        "u".to_string(),
        "m".to_string(),
        true,
        42,
    );
    swapper.capture_active_pane("%3:1:20:copy-mode:5:active");
    swapper.send_osc52();
    let launch = swapper.execute_thumbs("@thumbs-osc52 0\n@thumbs-reverse 1");
    let pane = launch.window_command.last().unwrap().clone();
    assert!(pane.ends_with(" tmux wait-for -S thumbs-finished-42"));
    swapper.set_thumbs_pane("%7".to_string());
    swapper.retrieve_content("false:x".to_string());
    swapper.capture_active_pane("%4:0:10::0:active");
    assert_eq!(swapper.wait_thumbs(), vec!["tmux", "wait-for", "thumbs-finished-42"]);
}
