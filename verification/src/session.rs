//! The interactive session state machine: browsing the achievement list, or
//! editing an application id to retarget the view. Each decoded key press
//! becomes one state transition plus an action for the caller to perform —
//! quit, fetch a new application, commit the outstanding diff, or persist
//! the sort preference.

use vstd::prelude::*;

verus! {

use vstd::string::{StrSliceExecFns, StringExecFns};
use crate::model::{
    App,
    all_selected,
    next_index,
    page_down_index,
    page_up_index,
    prev_index,
    same_except_cursor,
    same_except_items,
};
use crate::models::{AchievementItem, FetchError, SortColumn, Status};
use crate::sort::sort_spec;
use crate::text::{chars_of, digit_str, dec_digit};

/// One decoded key press, as the terminal layer hands it in.
#[derive(Clone, Copy, Debug, PartialEq, Eq, Structural)]
pub enum KeyInput {
    Up,
    Down,
    PageUp,
    PageDown,
    Enter,
    Backspace,
    Esc,
    Char(char),
    Ctrl(char),
}

/// What the caller must do after a key has been dispatched.
#[derive(Clone, Copy, Debug, PartialEq, Eq, Structural)]
pub enum Action {
    Continue,
    Quit,
    Fetch(u32),
    Commit,
    SaveConfig,
}

/// A decimal digit character.
pub open spec fn is_digit_char(c: char) -> bool {
    '0' <= c && c <= '9'
}

/// The numeric value of a decimal digit character.
pub open spec fn digit_value(c: char) -> int {
    c as u32 - 48
}

/// Every character is a decimal digit.
pub open spec fn all_digits(s: Seq<char>) -> bool {
    forall|i: int| 0 <= i < s.len() ==> is_digit_char(#[trigger] s[i])
}

/// The number a digit string denotes.
pub open spec fn digits_val(s: Seq<char>) -> int
    decreases s.len(),
{
    if s.len() == 0 {
        0
    } else {
        digits_val(s.drop_last()) * 10 + digit_value(s.last())
    }
}

/// A digit string denotes at least what any of its prefixes denotes.
proof fn lemma_digits_val_extend(s: Seq<char>, k: int)
    requires
        0 <= k <= s.len(),
        forall|j: int| k <= j < s.len() ==> is_digit_char(#[trigger] s[j]),
        digits_val(s.take(k)) >= 0,
    ensures
        digits_val(s) >= digits_val(s.take(k)),
        digits_val(s) >= 0,
    decreases s.len() - k,
{
    if k == s.len() {
        assert(s.take(k) =~= s);
    } else {
        let t = s.drop_last();
        assert(t.take(k) =~= s.take(k));
        lemma_digits_val_extend(t, k);
        assert(is_digit_char(s[s.len() - 1]));
    }
}

/// Parses a decimal application id: the denoted number, when the string is
/// non-empty, all digits, and the number fits an id.
pub fn parse_app_id(s: &str) -> (r: Option<u32>)
    ensures
        r is Some <==> (s@.len() > 0 && all_digits(s@) && digits_val(s@) <= u32::MAX),
        r matches Some(v) ==> v as int == digits_val(s@),
{
    let v: Vec<char> = chars_of(s);
    if v.len() == 0 {
        return None;
    }
    let mut acc: u64 = 0;
    let mut i: usize = 0;
    while i < v.len()
        invariant
            i <= v@.len(),
            v@ == s@,
            v@.len() > 0,
            all_digits(v@.take(i as int)),
            acc as int == digits_val(v@.take(i as int)),
            acc <= u32::MAX,
        decreases v@.len() - i,
    {
        let c: char = v[i];
        if c < '0' || c > '9' {
            proof {
                assert(s@[i as int] == c);
                assert(!is_digit_char(c));
            }
            return None;
        }
        let d: u32 = (c as u32) - 48;
        proof {
            assert(v@.take(i + 1 as int).drop_last() =~= v@.take(i as int));
            assert(v@.take(i + 1 as int).last() == c);
            assert(digits_val(v@.take(i + 1 as int)) == acc as int * 10 + d);
        }
        let wide: u64 = acc * 10 + d as u64;
        if wide > 0xFFFF_FFFFu64 {
            proof {
                if all_digits(s@) && digits_val(s@) <= u32::MAX {
                    lemma_digits_val_extend(s@, i + 1);
                    assert(digits_val(s@) >= wide as int);
                }
            }
            return None;
        }
        acc = wide;
        proof {
            assert forall|j: int| 0 <= j < i + 1 implies is_digit_char(#[trigger] v@.take(
                i + 1 as int,
            )[j]) by {
                if j < i {
                    assert(v@.take(i as int)[j] == v@.take(i + 1 as int)[j]);
                } else {
                    assert(v@.take(i + 1 as int)[j] == c);
                }
            }
        }
        i = i + 1;
    }
    proof {
        assert(v@.take(v@.len() as int) =~= v@);
    }
    Some(acc as u32)
}

/// The status line for an id the parser rejected.
pub open spec fn invalid_id_message(input: Seq<char>) -> Seq<char> {
    "Invalid App ID: "@ + input
}

/// The interactive session: an optional loaded model, whether the id editor
/// is open, its input buffer, and the session-level status line.
pub struct Session {
    pub app: Option<App>,
    pub editing: bool,
    pub input: String,
    pub status: Option<Status>,
}

/// Nothing about the session changed.
pub open spec fn session_unchanged(pre: Session, post: Session) -> bool {
    &&& post.app == pre.app
    &&& post.editing == pre.editing
    &&& post.input == pre.input
    &&& post.status == pre.status
}

/// The id editor was left for browsing, its buffer and status discarded.
pub open spec fn left_editing(pre: Session, post: Session) -> bool {
    &&& post.app == pre.app
    &&& !post.editing
    &&& post.input@.len() == 0
    &&& post.status is None
}

/// Cancelling the id editor: quit outright when no model is loaded yet,
/// else return to browsing.
pub open spec fn cancel_step(pre: Session, post: Session, act: Action) -> bool {
    if pre.app is None {
        session_unchanged(pre, post) && act is Quit
    } else {
        left_editing(pre, post) && act is Continue
    }
}

/// The session-level fields around the model are untouched.
pub open spec fn model_frame(pre: Session, post: Session) -> bool {
    &&& post.editing == pre.editing
    &&& post.input == pre.input
    &&& post.status == pre.status
}

/// A cursor move: the model's rows stand, the cursor lands where `to` says
/// (and stays put on an empty list).
pub open spec fn nav_step(pre: Session, post: Session, to: spec_fn(int, int) -> int) -> bool {
    &&& model_frame(pre, post)
    &&& (pre.app matches Some(a) && post.app matches Some(b) && same_except_cursor(a, b) && (
    a.achievements@.len() == 0 ==> b.current_index == a.current_index) && (a.achievements@.len() > 0
        ==> b.current_index as int == to(a.current_index as int, a.achievements@.len() as int)))
}

/// The row under the cursor had its desired state flipped.
pub open spec fn toggle_step(pre: Session, post: Session) -> bool {
    &&& model_frame(pre, post)
    &&& (pre.app matches Some(a) && post.app matches Some(b) && same_except_items(a, b) && (
    a.achievements@.len() == 0 ==> b.achievements == a.achievements) && (a.achievements@.len() > 0
        ==> b.achievements@ == a.achievements@.update(
        a.current_index as int,
        AchievementItem {
            selected: !a.achievements@[a.current_index as int].selected,
            ..a.achievements@[a.current_index as int]
        },
    )))
}

/// Every row had its desired state set to `sel`.
pub open spec fn select_step(pre: Session, post: Session, sel: bool) -> bool {
    &&& model_frame(pre, post)
    &&& (pre.app matches Some(a) && post.app matches Some(b) && same_except_items(a, b)
        && b.achievements@ == all_selected(a.achievements@, sel))
}

/// The sort column changed to `col` and the rows were re-sorted.
pub open spec fn sort_col_step(pre: Session, post: Session, col: SortColumn) -> bool {
    &&& model_frame(pre, post)
    &&& (pre.app matches Some(a) && post.app matches Some(b) && b.sort_column == col
        && b.sort_order == a.sort_order && b.achievements@ == sort_spec(
        a.achievements@,
        col,
        a.sort_order,
    ) && b.current_index == a.current_index && b.app_id == a.app_id && b.status == a.status
        && b.search_query == a.search_query)
}

/// The sort direction flipped and the rows were re-sorted.
pub open spec fn sort_flip_step(pre: Session, post: Session) -> bool {
    &&& model_frame(pre, post)
    &&& (pre.app matches Some(a) && post.app matches Some(b) && b.sort_column == a.sort_column
        && b.sort_order == a.sort_order.flip() && b.achievements@ == sort_spec(
        a.achievements@,
        a.sort_column,
        a.sort_order.flip(),
    ) && b.current_index == a.current_index && b.app_id == a.app_id && b.status == a.status
        && b.search_query == a.search_query)
}

/// The id editor opened with a clear buffer.
pub open spec fn entered_editing(pre: Session, post: Session) -> bool {
    &&& post.app == pre.app
    &&& post.editing
    &&& post.input@.len() == 0
    &&& post.status is None
}

/// The whole key dispatch relation: what one key press does to the session
/// and which action it hands back to the caller.
pub open spec fn step_spec(pre: Session, key: KeyInput, post: Session, act: Action) -> bool {
    if pre.editing {
        match key {
            KeyInput::Esc => cancel_step(pre, post, act),
            KeyInput::Enter => if pre.input@.len() == 0 {
                cancel_step(pre, post, act)
            } else if all_digits(pre.input@) && digits_val(pre.input@) <= u32::MAX {
                session_unchanged(pre, post) && (act matches Action::Fetch(id) && id as int
                    == digits_val(pre.input@))
            } else {
                &&& post.app == pre.app
                &&& post.editing
                &&& post.input@.len() == 0
                &&& (post.status matches Some(st) && st.level is Error && st.message@
                    == invalid_id_message(pre.input@))
                &&& act is Continue
            },
            KeyInput::Backspace => {
                &&& post.app == pre.app
                &&& post.editing
                &&& post.status is None
                &&& post.input@ == (if pre.input@.len() > 0 {
                    pre.input@.drop_last()
                } else {
                    pre.input@
                })
                &&& act is Continue
            },
            KeyInput::Char(c) => if c == 'q' {
                cancel_step(pre, post, act)
            } else if c == 'c' || c == 'd' {
                &&& post.app == pre.app
                &&& post.editing
                &&& post.input@.len() == 0
                &&& post.status is None
                &&& act is Continue
            } else if is_digit_char(c) {
                if pre.input@.len() < 10 {
                    &&& post.app == pre.app
                    &&& post.editing
                    &&& post.input@ == pre.input@.push(c)
                    &&& post.status is None
                    &&& act is Continue
                } else {
                    session_unchanged(pre, post) && act is Continue
                }
            } else {
                session_unchanged(pre, post) && act is Continue
            },
            _ => session_unchanged(pre, post) && act is Continue,
        }
    } else {
        match key {
            KeyInput::Esc => session_unchanged(pre, post) && act is Quit,
            KeyInput::Down => nav_step(pre, post, |i: int, len: int| next_index(i, len)) && act
                is Continue,
            KeyInput::Up => nav_step(pre, post, |i: int, len: int| prev_index(i, len)) && act
                is Continue,
            KeyInput::PageUp => nav_step(pre, post, |i: int, len: int| page_up_index(i)) && act
                is Continue,
            KeyInput::PageDown => nav_step(pre, post, |i: int, len: int| page_down_index(i, len))
                && act is Continue,
            KeyInput::Enter => session_unchanged(pre, post) && act is Commit,
            KeyInput::Ctrl(c) => if c == 'p' {
                nav_step(pre, post, |i: int, len: int| page_up_index(i)) && act is Continue
            } else if c == 'n' {
                nav_step(pre, post, |i: int, len: int| page_down_index(i, len)) && act is Continue
            } else {
                session_unchanged(pre, post) && act is Continue
            },
            KeyInput::Char(c) => if c == 'q' {
                session_unchanged(pre, post) && act is Quit
            } else if c == 'i' {
                entered_editing(pre, post) && act is Continue
            } else if c == 'j' {
                nav_step(pre, post, |i: int, len: int| next_index(i, len)) && act is Continue
            } else if c == 'k' {
                nav_step(pre, post, |i: int, len: int| prev_index(i, len)) && act is Continue
            } else if c == 'g' {
                nav_step(pre, post, |i: int, len: int| 0int) && act is Continue
            } else if c == 'G' {
                nav_step(pre, post, |i: int, len: int| len - 1) && act is Continue
            } else if c == ' ' {
                toggle_step(pre, post) && act is Continue
            } else if c == 'a' {
                select_step(pre, post, true) && act is Continue
            } else if c == 'd' {
                select_step(pre, post, false) && act is Continue
            } else if c == 'p' {
                sort_col_step(pre, post, SortColumn::Percentage) && act is SaveConfig
            } else if c == 'n' {
                sort_col_step(pre, post, SortColumn::Name) && act is SaveConfig
            } else if c == 'o' {
                sort_flip_step(pre, post) && act is SaveConfig
            } else {
                session_unchanged(pre, post) && act is Continue
            },
            _ => session_unchanged(pre, post) && act is Continue,
        }
    }
}

impl Session {
    /// A loaded model implies browsing makes sense; without one the session
    /// must sit in the id editor.
    pub open spec fn wf(&self) -> bool {
        &&& (self.app is None ==> self.editing)
        &&& (self.app matches Some(a) ==> a.wf())
    }

    /// Opens a session, in the id editor when no model is given.
    pub fn new(app: Option<App>) -> (s: Session)
        requires
            app matches Some(a) ==> a.wf(),
        ensures
            s.wf(),
            s.app == app,
            s.editing == (app is None),
            s.input@.len() == 0,
            s.status is None,
    {
        let editing: bool = app.is_none();
        Session { app, editing, input: String::new(), status: None }
    }

    /// Installs a freshly loaded model and returns to browsing.
    pub fn install_app(&mut self, app: App)
        requires
            app.wf(),
        ensures
            final(self).wf(),
            final(self).app matches Some(b) && b == app,
            !final(self).editing,
            final(self).input@.len() == 0,
            final(self).status is None,
    {
        self.app = Some(app);
        self.editing = false;
        self.input = String::new();
        self.status = None;
    }

    /// Records a failed load: the error becomes the status line, the buffer
    /// clears, and the id editor stays open.
    pub fn load_failed(&mut self, err: FetchError)
        requires
            old(self).wf(),
        ensures
            final(self).wf(),
            final(self).app == old(self).app,
            final(self).editing == old(self).editing,
            final(self).input@.len() == 0,
            final(self).status matches Some(st) && st.level is Error && st.message@
                == err.spec_message(),
    {
        self.status = Some(Status::error(err.message()));
        self.input = String::new();
    }

    /// Dispatches one key press: mutates the session per `step_spec` and
    /// returns the action the caller must perform.
    pub fn handle_key(&mut self, key: KeyInput) -> (act: Action)
        requires
            old(self).wf(),
        ensures
            final(self).wf(),
            step_spec(*old(self), key, *final(self), act),
    {
        if self.editing {
            match key {
                KeyInput::Esc => self.cancel_editing(),
                KeyInput::Enter => {
                    if self.input.as_str().unicode_len() == 0 {
                        self.cancel_editing()
                    } else {
                        match parse_app_id(self.input.as_str()) {
                            Some(id) => Action::Fetch(id),
                            None => {
                                let mut m: String = String::from_str("Invalid App ID: ");
                                m.append(self.input.as_str());
                                self.status = Some(Status::error(m));
                                self.input = String::new();
                                Action::Continue
                            },
                        }
                    }
                },
                KeyInput::Backspace => {
                    let n: usize = self.input.as_str().unicode_len();
                    if n > 0 {
                        let shorter: &str = self.input.as_str().substring_char(0, n - 1);
                        let shorter_owned: String = shorter.to_owned();
                        proof {
                            assert(shorter_owned@ =~= old(self).input@.drop_last());
                        }
                        self.input = shorter_owned;
                    }
                    self.status = None;
                    Action::Continue
                },
                KeyInput::Char(c) => {
                    if c == 'q' {
                        self.cancel_editing()
                    } else if c == 'c' || c == 'd' {
                        self.input = String::new();
                        self.status = None;
                        Action::Continue
                    } else if c >= '0' && c <= '9' {
                        if self.input.as_str().unicode_len() < 10 {
                            let d: u128 = ((c as u32) - 48) as u128;
                            let ds: &'static str = digit_str(d);
                            proof {
                                assert(dec_digit(d as int) == c);
                            }
                            self.input.append(ds);
                            proof {
                                assert(self.input@ =~= old(self).input@.push(c));
                            }
                            self.status = None;
                            Action::Continue
                        } else {
                            Action::Continue
                        }
                    } else {
                        Action::Continue
                    }
                },
                _ => Action::Continue,
            }
        } else {
            match key {
                KeyInput::Esc => Action::Quit,
                KeyInput::Down => {
                    let mut a: App = self.app.take().unwrap();
                    a.next();
                    self.app = Some(a);
                    Action::Continue
                },
                KeyInput::Up => {
                    let mut a: App = self.app.take().unwrap();
                    a.previous();
                    self.app = Some(a);
                    Action::Continue
                },
                KeyInput::PageUp => {
                    let mut a: App = self.app.take().unwrap();
                    a.page_up();
                    self.app = Some(a);
                    Action::Continue
                },
                KeyInput::PageDown => {
                    let mut a: App = self.app.take().unwrap();
                    a.page_down();
                    self.app = Some(a);
                    Action::Continue
                },
                KeyInput::Enter => Action::Commit,
                KeyInput::Ctrl(c) => {
                    if c == 'p' {
                        let mut a: App = self.app.take().unwrap();
                        a.page_up();
                        self.app = Some(a);
                        Action::Continue
                    } else if c == 'n' {
                        let mut a: App = self.app.take().unwrap();
                        a.page_down();
                        self.app = Some(a);
                        Action::Continue
                    } else {
                        Action::Continue
                    }
                },
                KeyInput::Char(c) => {
                    if c == 'q' {
                        Action::Quit
                    } else if c == 'i' {
                        self.editing = true;
                        self.input = String::new();
                        self.status = None;
                        Action::Continue
                    } else if c == 'j' {
                        let mut a: App = self.app.take().unwrap();
                        a.next();
                        self.app = Some(a);
                        Action::Continue
                    } else if c == 'k' {
                        let mut a: App = self.app.take().unwrap();
                        a.previous();
                        self.app = Some(a);
                        Action::Continue
                    } else if c == 'g' {
                        let mut a: App = self.app.take().unwrap();
                        a.jump_to_top();
                        self.app = Some(a);
                        Action::Continue
                    } else if c == 'G' {
                        let mut a: App = self.app.take().unwrap();
                        a.jump_to_bottom();
                        self.app = Some(a);
                        Action::Continue
                    } else if c == ' ' {
                        let mut a: App = self.app.take().unwrap();
                        a.toggle_selection();
                        self.app = Some(a);
                        Action::Continue
                    } else if c == 'a' {
                        let mut a: App = self.app.take().unwrap();
                        a.select_all();
                        self.app = Some(a);
                        Action::Continue
                    } else if c == 'd' {
                        let mut a: App = self.app.take().unwrap();
                        a.deselect_all();
                        self.app = Some(a);
                        Action::Continue
                    } else if c == 'p' {
                        let mut a: App = self.app.take().unwrap();
                        a.set_sort_column(SortColumn::Percentage);
                        self.app = Some(a);
                        Action::SaveConfig
                    } else if c == 'n' {
                        let mut a: App = self.app.take().unwrap();
                        a.set_sort_column(SortColumn::Name);
                        self.app = Some(a);
                        Action::SaveConfig
                    } else if c == 'o' {
                        let mut a: App = self.app.take().unwrap();
                        a.toggle_sort_order();
                        self.app = Some(a);
                        Action::SaveConfig
                    } else {
                        Action::Continue
                    }
                },
                _ => Action::Continue,
            }
        }
    }

    /// Leaves the id editor: quits outright when no model is loaded.
    fn cancel_editing(&mut self) -> (act: Action)
        requires
            old(self).wf(),
        ensures
            final(self).wf(),
            cancel_step(*old(self), *final(self), act),
    {
        if self.app.is_none() {
            Action::Quit
        } else {
            self.editing = false;
            self.input = String::new();
            self.status = None;
            Action::Continue
        }
    }
}

} // verus!
