use vstd::prelude::*;
use vstd::string::StringExecFns;
use vstd::utf8::encode_utf8;
use vstd::view::View as ModelView;
use crate::text::{from_chars, to_chars};

verus! {

/// A match of a pattern on screen: its position, its text, and the hint
/// typed to pick it.
pub struct Match {
    pub x: i32,
    pub y: i32,
    pub text: String,
    pub hint: Option<String>,
}

/// A match, as plain values.
pub struct MatchView {
    pub x: i32,
    pub y: i32,
    pub text: Seq<char>,
    pub hint: Option<Seq<char>>,
}

impl ModelView for Match {
    type V = MatchView;

    open spec fn view(&self) -> MatchView {
        MatchView {
            x: self.x,
            y: self.y,
            text: self.text@,
            hint: match self.hint {
                Some(h) => Some(h@),
                None => None,
            },
        }
    }
}

/// The keys that the hint picker tells apart.
#[derive(Debug, Clone, Copy, PartialEq, Eq, Structural)]
pub enum Key {
    Esc,
    Up,
    Down,
    Left,
    Right,
    Backspace,
    Char(char),
    Other,
}

/// What comes of a key: go on (and draw again), leave without a pick, or
/// hand the picks back.
#[derive(Debug, Clone, Copy, PartialEq, Eq, Structural)]
pub enum KeyOutcome {
    Continue,
    Exit,
    Hint,
}

/// How the picker starts listening for keys: leave at once (no matches), no
/// match has a hint, or ready, with the length in bytes of the longest hint.
#[derive(Debug, Clone, Copy, PartialEq, Eq, Structural)]
pub enum ListenStart {
    NoMatches,
    NoHint,
    Ready(usize),
}

/// The hint picker: the selected match, whether several matches can be
/// picked, whether hints are shown in brackets, where hints are placed, the
/// matches, and the picks so far (each text with whether it was picked with
/// an upper-case hint).
pub struct View {
    pub skip: usize,
    pub multi: bool,
    pub contrast: bool,
    pub position: String,
    pub matches: Vec<Match>,
    pub chosen: Vec<(String, bool)>,
}

/// The hint picker, as plain values.
pub struct ViewModel {
    pub skip: int,
    pub multi: bool,
    pub contrast: bool,
    pub position: Seq<char>,
    pub matches: Seq<MatchView>,
    pub chosen: Seq<(Seq<char>, bool)>,
}

impl ModelView for View {
    type V = ViewModel;

    open spec fn view(&self) -> ViewModel {
        ViewModel {
            skip: self.skip as int,
            multi: self.multi,
            contrast: self.contrast,
            position: self.position@,
            matches: self.matches@.map_values(|m: Match| m@),
            chosen: self.chosen@.map_values(|c: (String, bool)| (c.0@, c.1)),
        }
    }
}

impl ViewModel {
    /// The selected match is one of the matches, when there are any.
    pub open spec fn wf(self) -> bool {
        self.matches.len() == 0 || (0 <= self.skip < self.matches.len())
    }
}

/// The selection moved one match back, if it is not on the first.
pub open spec fn prev_spec(v: ViewModel) -> ViewModel {
    if v.skip > 0 {
        ViewModel { skip: v.skip - 1, ..v }
    } else {
        v
    }
}

/// The selection moved one match on, if it is not on the last.
pub open spec fn next_spec(v: ViewModel) -> ViewModel {
    if v.skip < v.matches.len() - 1 {
        ViewModel { skip: v.skip + 1, ..v }
    } else {
        v
    }
}

/// The index of the first match whose hint is `typed`.
pub open spec fn hint_index(ms: Seq<MatchView>, typed: Seq<char>) -> Option<int>
    decreases ms.len(),
{
    if ms.len() == 0 {
        None
    } else if ms[0].hint == Some(typed) {
        Some(0)
    } else {
        match hint_index(ms.drop_first(), typed) {
            Some(k) => Some(k + 1),
            None => None,
        }
    }
}

/// The length in bytes of the UTF-8 encoding of `s` (`str::len`).
pub open spec fn byte_len(s: Seq<char>) -> int {
    (encode_utf8(s).len() as usize) as int
}

/// The longest hint, in bytes, if any match has a hint.
pub open spec fn longest_hint(ms: Seq<MatchView>) -> Option<int>
    decreases ms.len(),
{
    if ms.len() == 0 {
        None
    } else {
        let rest = longest_hint(ms.drop_last());
        match ms.last().hint {
            None => rest,
            Some(h) => match rest {
                Some(m) => Some(if byte_len(h) >= m { byte_len(h) } else { m }),
                None => Some(byte_len(h)),
            },
        }
    }
}

/// The lower case of `s` (`str::to_lowercase`).
pub uninterp spec fn lowercase(s: Seq<char>) -> Seq<char>;

/// `str::to_lowercase`; the contract names the result.
#[verifier::external_body]
fn to_lowercase(s: &str) -> (r: String)
    ensures
        r@ == lowercase(s@),
{
    s.to_lowercase()
}

/// What the key `key` does to the picker `v` and the typed hint `typed`,
/// given the length in bytes of the longest hint: the new picker, the new
/// typed hint, and whether to go on, leave, or hand back the picks.
///
/// Esc clears the typed hint when several matches can be picked and something
/// is typed, and leaves otherwise; the arrows move the selection; Backspace
/// drops the last typed character; Enter picks the selected match; Space
/// hands back the picks when several can be picked, and else allows several;
/// any other character is typed (in lower case), and a match whose hint is
/// the typed hint is picked (as upper case when the key was not lower case).
/// A single pick is handed back at once; with several, the typed hint is
/// cleared. A typed hint that matches nothing and is as long as the longest
/// hint ends a single pick.
pub open spec fn key_step(v: ViewModel, typed: Seq<char>, longest: int, key: Key) -> (
    ViewModel,
    Seq<char>,
    KeyOutcome,
) {
    match key {
        Key::Esc => if v.multi && typed.len() > 0 {
            (v, Seq::empty(), KeyOutcome::Continue)
        } else {
            (v, typed, KeyOutcome::Exit)
        },
        Key::Up => (prev_spec(v), typed, KeyOutcome::Continue),
        Key::Left => (prev_spec(v), typed, KeyOutcome::Continue),
        Key::Down => (next_spec(v), typed, KeyOutcome::Continue),
        Key::Right => (next_spec(v), typed, KeyOutcome::Continue),
        Key::Backspace => (
            v,
            if typed.len() > 0 {
                typed.drop_last()
            } else {
                typed
            },
            KeyOutcome::Continue,
        ),
        Key::Char(c) => if c == '\n' {
            let v2 = ViewModel { chosen: v.chosen.push((v.matches[v.skip].text, false)), ..v };
            (v2, typed, if v.multi { KeyOutcome::Continue } else { KeyOutcome::Hint })
        } else if c == ' ' {
            if v.multi {
                (v, typed, KeyOutcome::Hint)
            } else {
                (ViewModel { multi: true, ..v }, typed, KeyOutcome::Continue)
            }
        } else {
            let lower = lowercase(seq![c]);
            let t2 = typed + lower;
            match hint_index(v.matches, t2) {
                Some(i) => {
                    let v2 = ViewModel {
                        chosen: v.chosen.push((v.matches[i].text, seq![c] != lower)),
                        ..v
                    };
                    if v.multi {
                        (v2, Seq::empty(), KeyOutcome::Continue)
                    } else {
                        (v2, t2, KeyOutcome::Hint)
                    }
                },
                None => (
                    v,
                    t2,
                    if !v.multi && byte_len(t2) >= longest {
                        KeyOutcome::Exit
                    } else {
                        KeyOutcome::Continue
                    },
                ),
            }
        },
        Key::Other => (v, typed, KeyOutcome::Continue),
    }
}


/// `hint` as shown: in brackets when `contrast` is on.
pub open spec fn hint_text_spec(contrast: bool, hint: Seq<char>) -> Seq<char> {
    if contrast {
        "["@ + hint + "]"@
    } else {
        hint
    }
}

/// The models of a list of matches.
pub open spec fn match_views(ms: Seq<Match>) -> Seq<MatchView> {
    ms.map_values(|m: Match| m@)
}

impl View {
    /// A picker over `matches`, with the last match selected when `reverse`
    /// is on, and the first otherwise.
    pub fn new(matches: Vec<Match>, multi: bool, reverse: bool, contrast: bool, position: String) -> (v: View)
        requires
            reverse ==> matches@.len() > 0,
        ensures
            v@ == (ViewModel {
                skip: if reverse { matches@.len() - 1 } else { 0 },
                multi,
                contrast,
                position: position@,
                matches: match_views(matches@),
                chosen: Seq::empty(),
            }),
            v@.wf(),
    {
        let skip = if reverse { matches.len() - 1 } else { 0 };
        let v = View { skip, multi, contrast, position, matches, chosen: Vec::new() };
        assert(v@.chosen =~= Seq::<(Seq<char>, bool)>::empty());
        v
    }

    /// Moves the selection one match back, if it is not on the first.
    pub fn prev(&mut self)
        ensures
            final(self)@ == prev_spec(old(self)@),
    {
        if self.skip > 0 {
            self.skip -= 1;
        }
    }

    /// Moves the selection one match on, if it is not on the last.
    pub fn next(&mut self)
        requires
            old(self).matches@.len() > 0,
        ensures
            final(self)@ == next_spec(old(self)@),
    {
        if self.skip < self.matches.len() - 1 {
            self.skip += 1;
        }
    }

    /// `hint` as shown: in brackets when contrast is on.
    pub fn make_hint_text(&self, hint: &str) -> (r: String)
        ensures
            r@ == hint_text_spec(self.contrast, hint@),
    {
        if self.contrast {
            let mut r = "[".to_owned();
            r.append(hint);
            r.append("]");
            r
        } else {
            hint.to_owned()
        }
    }

    /// The length in bytes of the longest hint, if any match has a hint.
    pub fn longest_hint_len(&self) -> (r: Option<usize>)
        ensures
            match longest_hint(self@.matches) {
                Some(m) => r == Some(m as usize),
                None => r is None,
            },
    {
        let mut best: Option<usize> = None;
        let mut i: usize = 0;
        let ghost ms = self@.matches;
        assert(ms.take(0) =~= Seq::<MatchView>::empty());
        while i < self.matches.len()
            invariant
                i <= self.matches@.len(),
                ms == self@.matches,
                ms.len() == self.matches@.len(),
                match longest_hint(ms.take(i as int)) {
                    Some(m) => best == Some(m as usize) && 0 <= m <= usize::MAX,
                    None => best is None,
                },
            decreases self.matches.len() - i,
        {
            let ghost t = ms.take(i + 1);
            assert(t.drop_last() =~= ms.take(i as int));
            assert(t.last() == self.matches@[i as int]@);
            match &self.matches[i].hint {
                Some(h) => {
                    let n = h.as_str().len();
                    best = match best {
                        Some(m) => Some(if n >= m { n } else { m }),
                        None => Some(n),
                    };
                },
                None => {},
            }
            i += 1;
        }
        assert(ms.take(self.matches@.len() as int) =~= ms);
        best
    }

    /// How the picker starts: with no matches it leaves at once; otherwise
    /// it needs the length in bytes of the longest hint, and there is none
    /// when no match has a hint.
    pub fn listen_start(&self) -> (r: ListenStart)
        ensures
            self@.matches.len() == 0 ==> r is NoMatches,
            self@.matches.len() > 0 ==> match longest_hint(self@.matches) {
                Some(m) => r == ListenStart::Ready(m as usize),
                None => r is NoHint,
            },
    {
        if self.matches.len() == 0 {
            return ListenStart::NoMatches;
        }
        match self.longest_hint_len() {
            Some(n) => ListenStart::Ready(n),
            None => ListenStart::NoHint,
        }
    }

    /// The index of the first match whose hint is `typed`.
    fn find_hint(&self, typed: &String) -> (r: Option<usize>)
        ensures
            match hint_index(self@.matches, typed@) {
                Some(k) => r matches Some(j) && j as int == k,
                None => r is None,
            },
            r matches Some(k) ==> k < self.matches@.len(),
    {
        let ghost ms = self@.matches;
        let mut i: usize = 0;
        assert(ms.skip(0) =~= ms);
        while i < self.matches.len()
            invariant
                i <= self.matches@.len(),
                ms == self@.matches,
                ms.len() == self.matches@.len(),
                hint_index(ms, typed@) == match hint_index(ms.skip(i as int), typed@) {
                    Some(k) => Some(k + i),
                    None => None::<int>,
                },
            decreases self.matches.len() - i,
        {
            assert(ms.skip(i as int)[0] == self.matches@[i as int]@);
            assert(ms.skip(i as int).drop_first() =~= ms.skip(i + 1));
            let found = match &self.matches[i].hint {
                Some(h) => *h == *typed,
                None => false,
            };
            if found {
                return Some(i);
            }
            i += 1;
        }
        assert(ms.skip(i as int) =~= Seq::<MatchView>::empty());
        None
    }

    /// Adds a pick.
    fn choose_match(&mut self, text: String, upcase: bool)
        ensures
            final(self)@ == (ViewModel { chosen: old(self)@.chosen.push((text@, upcase)), ..old(self)@ }),
    {
        let ghost c0 = self.chosen@;
        let ghost tv = text@;
        self.chosen.push((text, upcase));
        assert(self@.chosen =~= c0.map_values(|c: (String, bool)| (c.0@, c.1)).push((tv, upcase)));
    }

    /// Handles the key `key`, with the typed hint `typed` and the length in
    /// bytes of the longest hint `longest`.
    #[verifier::spinoff_prover]
    pub fn handle_key(&mut self, typed: &mut String, longest: usize, key: Key) -> (r: KeyOutcome)
        requires
            old(self)@.wf(),
            old(self)@.matches.len() > 0,
        ensures
            (final(self)@, final(typed)@, r) == key_step(old(self)@, old(typed)@, longest as int, key),
            final(self)@.wf(),
    {
        let ghost v0 = self@;
        let ghost t0 = typed@;
        match key {
            Key::Esc => {
                if self.multi && !typed.as_str().is_empty() {
                    *typed = String::new();
                    KeyOutcome::Continue
                } else {
                    KeyOutcome::Exit
                }
            },
            Key::Up | Key::Left => {
                self.prev();
                KeyOutcome::Continue
            },
            Key::Down | Key::Right => {
                self.next();
                KeyOutcome::Continue
            },
            Key::Backspace => {
                let mut t = to_chars(typed.as_str());
                t.pop();
                *typed = from_chars(t.as_slice());
                KeyOutcome::Continue
            },
            Key::Char(c) => {
                if c == '\n' {
                    let text = self.matches[self.skip].text.clone();
                    assert(text@ == old(self)@.matches[self.skip as int].text);
                    self.choose_match(text, false);
                    assert(self@.chosen =~= key_step(v0, t0, longest as int, key).0.chosen);
                    if self.multi {
                        KeyOutcome::Continue
                    } else {
                        KeyOutcome::Hint
                    }
                } else if c == ' ' {
                    if self.multi {
                        KeyOutcome::Hint
                    } else {
                        self.multi = true;
                        KeyOutcome::Continue
                    }
                } else {
                    let mut one: Vec<char> = Vec::new();
                    one.push(c);
                    let key_text = from_chars(one.as_slice());
                    assert(key_text@ =~= seq![c]);
                    let lower = to_lowercase(key_text.as_str());
                    typed.append(lower.as_str());
                    match self.find_hint(typed) {
                        Some(i) => {
                            let text = self.matches[i].text.clone();
                            assert(text@ == old(self)@.matches[i as int].text);
                            let upcase = !(key_text == lower);
                            assert(upcase == (seq![c] != lower@));
                            self.choose_match(text, upcase);
                            assert(typed@ == t0 + lower@);
                            assert(hint_index(v0.matches, typed@) == Some(i as int));
                            assert(self@.chosen =~= key_step(v0, t0, longest as int, key).0.chosen);
                            if self.multi {
                                *typed = String::new();
                                KeyOutcome::Continue
                            } else {
                                KeyOutcome::Hint
                            }
                        },
                        None => {
                            if !self.multi && typed.as_str().len() >= longest {
                                KeyOutcome::Exit
                            } else {
                                KeyOutcome::Continue
                            }
                        },
                    }
                }
            },
            Key::Other => KeyOutcome::Continue,
        }
    }
}


/// Every key keeps the picker well formed and its matches, and never undoes a
/// pick: the picks before the key come first among the picks after it.
pub proof fn lemma_key_step_keeps_picks(v: ViewModel, typed: Seq<char>, longest: int, key: Key)
    requires
        v.wf(),
        v.matches.len() > 0,
    ensures
        key_step(v, typed, longest, key).0.wf(),
        key_step(v, typed, longest, key).0.matches == v.matches,
        v.chosen.len() <= key_step(v, typed, longest, key).0.chosen.len(),
        key_step(v, typed, longest, key).0.chosen.take(v.chosen.len() as int) == v.chosen,
{
    let after = key_step(v, typed, longest, key).0.chosen;
    assert(after.take(v.chosen.len() as int) =~= v.chosen);
}

/// Moving back and then on returns to the same match, and so does moving on
/// and then back, when the selection is not at that end.
pub proof fn lemma_prev_next_inverse(v: ViewModel)
    requires
        v.wf(),
        v.matches.len() > 0,
    ensures
        v.skip > 0 ==> next_spec(prev_spec(v)) == v,
        v.skip < v.matches.len() - 1 ==> prev_spec(next_spec(v)) == v,
{
}

/// The arrows move the selection and change nothing else: Up and Left one
/// match back (staying on the first), Down and Right one match on (staying
/// on the last); the typed hint is kept and the picker goes on.
pub proof fn lemma_arrows_move_selection(v: ViewModel, typed: Seq<char>, longest: int)
    requires
        v.wf(),
        v.matches.len() > 0,
    ensures
        ({
            let back = ViewModel { skip: if v.skip > 0 { v.skip - 1 } else { v.skip }, ..v };
            let on = ViewModel {
                skip: if v.skip < v.matches.len() - 1 { v.skip + 1 } else { v.skip },
                ..v
            };
            &&& key_step(v, typed, longest, Key::Up) == (back, typed, KeyOutcome::Continue)
            &&& key_step(v, typed, longest, Key::Left) == (back, typed, KeyOutcome::Continue)
            &&& key_step(v, typed, longest, Key::Down) == (on, typed, KeyOutcome::Continue)
            &&& key_step(v, typed, longest, Key::Right) == (on, typed, KeyOutcome::Continue)
        }),
{
}

} // verus!
