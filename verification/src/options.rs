use vstd::prelude::*;
use vstd::slice::slice_subrange;
use vstd::slice::slice_to_vec;
use crate::text::{lemma_first_ws, find_whitespace, first_ws, from_chars, is_ws, replace, replace_all, starts_with, to_chars, trim, trim_end_ws, trim_start_ws, trim_ws};

verus! {

/// Whether `s` begins with `p`.
pub open spec fn has_prefix(s: Seq<char>, p: Seq<char>) -> bool {
    p.len() <= s.len() && s.take(p.len() as int) == p
}

/// The prefix that marks a tmux option of thumbs.
pub open spec fn option_prefix() -> Seq<char> {
    "@thumbs-"@
}

/// Whether `v` is wrapped in a pair of double quotes or a pair of single quotes.
pub open spec fn is_quoted(v: Seq<char>) -> bool {
    v.len() > 0 && ((v[0] == '"' && v.last() == '"') || (v[0] == '\'' && v.last() == '\''))
}

/// A quoted value loses its first and last characters, and then the escapes
/// `\"`, `\\` and `\~` are undone, in that order; any other value is kept.
pub open spec fn unquote(v: Seq<char>) -> Seq<char> {
    if is_quoted(v) {
        let inner = if v.len() >= 2 { v.subrange(1, v.len() - 1) } else { Seq::empty() };
        replace_all(replace_all(replace_all(inner, "\\\""@, "\""@), "\\\\"@, "\\"@), "\\~"@, "~"@)
    } else {
        v
    }
}

/// What an option line of `tmux show -g` means to thumbs: a line that starts
/// with `@thumbs-` gives the name between that prefix and the first whitespace
/// of the trimmed line, and the (unquoted) rest of the line as the value.
pub open spec fn option_line(line: Seq<char>) -> Option<(Seq<char>, Seq<char>)> {
    let p = option_prefix();
    if !has_prefix(line, p) {
        None
    } else {
        let t = trim_ws(line);
        match first_ws(t) {
            Some(k) => Some((t.subrange(p.len() as int, k), unquote(trim_ws(t.skip(k))))),
            None => None,
        }
    }
}

/// Trimming trailing whitespace keeps a prefix of `s`, and drops only whitespace.
pub proof fn lemma_trim_end_prefix(s: Seq<char>) -> (m: int)
    ensures
        0 <= m <= s.len(),
        trim_end_ws(s) == s.take(m),
        forall|j: int| m <= j < s.len() ==> is_ws(#[trigger] s[j]),
    decreases s.len(),
{
    if s.len() > 0 && is_ws(s.last()) {
        let m = lemma_trim_end_prefix(s.drop_last());
        assert(s.drop_last().take(m) =~= s.take(m));
        assert forall|j: int| m <= j < s.len() implies is_ws(#[trigger] s[j]) by {
            if j < s.len() - 1 {
                assert(s.drop_last()[j] == s[j]);
            }
        }
        m
    } else {
        assert(s.take(s.len() as int) =~= s);
        s.len() as int
    }
}

/// The index `first_ws` gives is the first whitespace character.
pub proof fn lemma_first_ws_props(s: Seq<char>)
    ensures
        match first_ws(s) {
            Some(k) => 0 <= k < s.len() && is_ws(s[k]) && forall|j: int|
                0 <= j < k ==> !is_ws(#[trigger] s[j]),
            None => forall|j: int| 0 <= j < s.len() ==> !is_ws(#[trigger] s[j]),
        },
    decreases s.len(),
{
    if s.len() > 0 && !is_ws(s[0]) {
        lemma_first_ws_props(s.drop_first());
        assert forall|j: int| 1 <= j < s.len() implies s[j] == s.drop_first()[j - 1] by {}
        match first_ws(s.drop_first()) {
            Some(k) => {
                assert forall|j: int| 0 <= j < k + 1 implies !is_ws(#[trigger] s[j]) by {
                    if j > 0 {
                        assert(s[j] == s.drop_first()[j - 1]);
                    }
                }
            },
            None => {
                assert forall|j: int| 0 <= j < s.len() implies !is_ws(#[trigger] s[j]) by {
                    if j > 0 {
                        assert(s[j] == s.drop_first()[j - 1]);
                    }
                }
            },
        }
    }
}

/// Undoes the quoting of an option value.
fn unquote_value(v: &[char]) -> (r: Vec<char>)
    ensures
        r@ == unquote(v@),
{
    let n = v.len();
    if n > 0 && ((v[0] == '"' && v[n - 1] == '"') || (v[0] == '\'' && v[n - 1] == '\'')) {
        let inner: Vec<char> = if n >= 2 {
            slice_to_vec(slice_subrange(v, 1, n - 1))
        } else {
            Vec::new()
        };
        let esc_quote = to_chars("\\\"");
        let quote = to_chars("\"");
        let esc_backslash = to_chars("\\\\");
        let backslash = to_chars("\\");
        let esc_tilde = to_chars("\\~");
        let tilde = to_chars("~");
        proof {
            reveal_strlit("\\\"");
            reveal_strlit("\\\\");
            reveal_strlit("\\~");
        }
        let a = replace(inner.as_slice(), esc_quote.as_slice(), quote.as_slice());
        let b = replace(a.as_slice(), esc_backslash.as_slice(), backslash.as_slice());
        replace(b.as_slice(), esc_tilde.as_slice(), tilde.as_slice())
    } else {
        slice_to_vec(v)
    }
}

/// Reads a line of `tmux show -g` output, given as characters, as a thumbs
/// option `(name, value)`.
#[verifier::spinoff_prover]
pub fn parse_option_chars(chars: &[char]) -> (r: Option<(Vec<char>, Vec<char>)>)
    ensures
        match option_line(chars@) {
            None => r is None,
            Some((name, value)) => r matches Some((n, v)) && n@ == name && v@ == value,
        },
{
    let prefix = to_chars("@thumbs-");
    proof {
        reveal_strlit("@thumbs-");
    }
    if !starts_with(chars, prefix.as_slice()) {
        return None;
    }
    let t = trim(chars);
    proof {
        let s = chars@;
        assert(prefix@.len() == 8);
        assert forall|j: int| 0 <= j < 8 implies #[trigger] s[j] == prefix@[j] by {
            assert(s.take(8)[j] == s[j]);
        }
        assert(forall|j: int| 0 <= j < 8 ==> !is_ws(#[trigger] prefix@[j]));
        assert(!is_ws(s[0]));
        assert(trim_start_ws(s) == s);
        let m = lemma_trim_end_prefix(s);
        assert(m >= 8) by {
            if m < 8 {
                assert(is_ws(s[m]));
            }
        }
        assert forall|j: int| 0 <= j < 8 implies #[trigger] t@[j] == prefix@[j] by {
            assert(t@[j] == s.take(m)[j]);
        }
        lemma_first_ws_props(t@);
    }
    match find_whitespace(t.as_slice()) {
        Some(k) => {
            proof {
                assert(is_ws(t@[k as int]));
                if k < 8 {
                    assert(t@[k as int] == prefix@[k as int]);
                    assert(!is_ws(prefix@[k as int]));
                }
                assert(k >= 8);
                assert(k <= t@.len());
            }
            let name = slice_to_vec(slice_subrange(t.as_slice(), 8, k));
            let rest = slice_subrange(t.as_slice(), k, t.len());
            assert(rest@ =~= t@.skip(k as int));
            let value = trim(rest);
            let value = unquote_value(value.as_slice());
            Some((name, value))
        },
        None => None,
    }
}

/// Reads a line of `tmux show -g` output as a thumbs option `(name, value)`.
pub fn parse_option_line(line: &str) -> (r: Option<(String, String)>)
    ensures
        match option_line(line@) {
            None => r is None,
            Some((name, value)) => r matches Some((n, v)) && n@ == name && v@ == value,
        },
{
    let chars = to_chars(line);
    match parse_option_chars(chars.as_slice()) {
        Some((name, value)) => Some((from_chars(name.as_slice()), from_chars(value.as_slice()))),
        None => None,
    }
}

/// What the options of thumbs settle: the three pick commands, whether to
/// copy through OSC 52, and the arguments handed to the `thumbs` program.
pub struct OptionsState {
    pub command: Seq<char>,
    pub upcase_command: Seq<char>,
    pub multi_command: Seq<char>,
    pub osc52: bool,
    pub args: Seq<Seq<char>>,
}

/// `"1"` or `"true"`.
pub open spec fn is_enabled(value: Seq<char>) -> bool {
    value == "1"@ || value == "true"@
}

/// The options that are switched on by a true value.
pub open spec fn is_flag_option(name: Seq<char>) -> bool {
    name == "reverse"@ || name == "unique"@ || name == "contrast"@ || name == "faint"@
}

/// The options whose value is handed on to `thumbs`.
pub open spec fn is_valued_option(name: Seq<char>) -> bool {
    ||| name == "alphabet"@
    ||| name == "position"@
    ||| name == "fg-color"@
    ||| name == "bg-color"@
    ||| name == "alt-bg-color"@
    ||| name == "dim-color"@
    ||| name == "hint-bg-color"@
    ||| name == "hint-fg-color"@
    ||| name == "select-fg-color"@
    ||| name == "select-bg-color"@
    ||| name == "multi-fg-color"@
    ||| name == "multi-bg-color"@
}

/// `value` in single quotes.
pub open spec fn single_quoted(value: Seq<char>) -> Seq<char> {
    "'"@ + value + "'"@
}

/// The effect of the option `name` set to `value`.
pub open spec fn apply_option(st: OptionsState, name: Seq<char>, value: Seq<char>) -> OptionsState {
    if name == "command"@ {
        OptionsState { command: value, ..st }
    } else if name == "upcase-command"@ {
        OptionsState { upcase_command: value, ..st }
    } else if name == "multi-command"@ {
        OptionsState { multi_command: value, ..st }
    } else if name == "osc52"@ {
        OptionsState { osc52: is_enabled(value), ..st }
    } else if is_flag_option(name) {
        if is_enabled(value) {
            OptionsState { args: st.args.push("--"@ + name), ..st }
        } else {
            st
        }
    } else if is_valued_option(name) {
        OptionsState { args: st.args.push("--"@ + name).push(single_quoted(value)), ..st }
    } else if has_prefix(name, "regexp"@) {
        OptionsState {
            args: st.args.push("--regexp"@).push(single_quoted(replace_all(value, "\\\\"@, "\\"@))),
            ..st
        }
    } else {
        st
    }
}

/// The effect of the option lines `lines`, read in order.
pub open spec fn apply_option_lines(st: OptionsState, lines: Seq<Seq<char>>) -> OptionsState
    decreases lines.len(),
{
    if lines.len() == 0 {
        st
    } else {
        let before = apply_option_lines(st, lines.drop_last());
        match option_line(lines.last()) {
            Some((name, value)) => apply_option(before, name, value),
            None => before,
        }
    }
}


/// A line `@thumbs-NAME VALUE` reads as the option `NAME` with value `VALUE`,
/// for a name without whitespace and a value that neither starts nor ends
/// with whitespace and is not quoted.
pub proof fn lemma_option_line_round_trip(name: Seq<char>, value: Seq<char>)
    requires
        forall|i: int| 0 <= i < name.len() ==> !is_ws(#[trigger] name[i]),
        value.len() > 0,
        !is_ws(value[0]),
        !is_ws(value.last()),
        !is_quoted(value),
    ensures
        option_line(option_prefix() + name + seq![' '] + value) == Some((name, value)),
{
    reveal_strlit("@thumbs-");
    let p = option_prefix();
    let line = p + name + seq![' '] + value;
    let k: int = (p.len() + name.len()) as int;
    assert(line.take(p.len() as int) =~= p);
    assert(line[0] == '@');
    assert(trim_start_ws(line) == line);
    assert(line.last() == value.last());
    assert(trim_end_ws(line) == line);
    assert forall|j: int| 0 <= j < k implies !is_ws(#[trigger] line[j]) by {
        if j < p.len() {
            assert(line[j] == p[j]);
        } else {
            assert(line[j] == name[j - p.len()]);
        }
    }
    assert(line[k] == ' ');
    lemma_first_ws(line, k);
    assert(line.subrange(p.len() as int, k) =~= name);
    let rest = line.skip(k);
    assert(rest =~= seq![' '] + value);
    assert(rest.drop_first() =~= value);
    assert(trim_start_ws(value) == value);
    assert(trim_start_ws(rest) == value);
    assert(trim_end_ws(value) == value);
}

/// The last line that sets an option decides its value: when the last line
/// sets `command`, the command is that line's value, whatever came before.
pub proof fn lemma_last_command_wins(st: OptionsState, lines: Seq<Seq<char>>, value: Seq<char>)
    requires
        lines.len() > 0,
        option_line(lines.last()) == Some(("command"@, value)),
    ensures
        apply_option_lines(st, lines).command == value,
{
}

/// A line that is not a thumbs option changes nothing.
pub proof fn lemma_foreign_line_ignored(st: OptionsState, lines: Seq<Seq<char>>, line: Seq<char>)
    requires
        option_line(line) is None,
    ensures
        apply_option_lines(st, lines.push(line)) == apply_option_lines(st, lines),
{
    assert(lines.push(line).drop_last() =~= lines);
}

} // verus!
