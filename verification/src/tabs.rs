//! The browser's key decisions that need no terminal: moving between and
//! rearranging tabs, stepping through the go-to history, and the second
//! press that confirms an action.

use vstd::prelude::*;
use crate::text;
use crate::browser::ActionConfirmation;
use crate::navigation::BrowserState;

verus! {

broadcast use vstd::string::group_string_axioms;

/// What a tab key asks for.
#[derive(Debug, Clone, Copy, PartialEq, Eq)]
pub enum TabCommand {
    /// Close the active tab (not the last one).
    Close,
    /// The next tab, wrapping around.
    Next,
    /// The previous tab, wrapping around.
    Previous,
    /// Swap the active tab with the one before it.
    MoveLeft,
    /// Swap the active tab with the one after it.
    MoveRight,
    /// The tab at this index, if there is one.
    Jump(usize),
}

/// The tabs and the active index after a command, or `None` where the
/// command does not apply (closing the last tab, moving past an end).
pub open spec fn tab_effect<T>(s: Seq<T>, active: int, cmd: TabCommand) -> Option<(Seq<T>, int)> {
    match cmd {
        TabCommand::Close => if s.len() > 1 {
            let t = s.remove(active);
            Some((t, if active >= t.len() { t.len() - 1 } else { active }))
        } else {
            None
        },
        TabCommand::Next => if s.len() > 1 {
            Some((s, (active + 1) % (s.len() as int)))
        } else {
            None
        },
        TabCommand::Previous => if s.len() > 1 {
            Some((s, if active == 0 { s.len() - 1 } else { active - 1 }))
        } else {
            None
        },
        TabCommand::MoveLeft => if active > 0 {
            Some((s.update(active, s[active - 1]).update(active - 1, s[active]), active - 1))
        } else {
            None
        },
        TabCommand::MoveRight => if active + 1 < s.len() {
            Some((s.update(active, s[active + 1]).update(active + 1, s[active]), active + 1))
        } else {
            None
        },
        TabCommand::Jump(i) => Some((s, if i < s.len() { i as int } else { active })),
    }
}

/// Moving a tab left and then right puts everything back.
pub proof fn lemma_move_left_then_right<T>(s: Seq<T>, active: int)
    requires
        0 < active < s.len(),
    ensures
        tab_effect(s, active, TabCommand::MoveLeft) matches Some((t, a)) && tab_effect(
            t,
            a,
            TabCommand::MoveRight,
        ) == Some((s, active)),
{
    let t = s.update(active, s[active - 1]).update(active - 1, s[active]);
    assert(t.update(active - 1, t[active]).update(active, t[active - 1]) =~= s);
}

/// Every command keeps the active index on a tab.
pub proof fn lemma_tab_effect_in_range<T>(s: Seq<T>, active: int, cmd: TabCommand)
    requires
        0 <= active < s.len(),
    ensures
        tab_effect(s, active, cmd) matches Some((t, a)) ==> 0 <= a < t.len(),
{
}

fn swap_adjacent<T>(v: &mut Vec<T>, i: usize)
    requires
        i + 1 < old(v)@.len(),
    ensures
        final(v)@ == old(v)@.update(i as int, old(v)@[i + 1]).update(i + 1, old(v)@[i as int]),
{
    assert(i + 1 < v.len());
    let x = v.remove(i);
    v.insert(i + 1, x);
    assert(v@ =~= old(v)@.update(i as int, old(v)@[i + 1]).update(i + 1, old(v)@[i as int]));
}

/// Carries out a tab command; says whether it applied.
pub fn apply_tab_command<T>(tabs: &mut Vec<T>, active: &mut usize, cmd: TabCommand) -> (applied: bool)
    requires
        *old(active) < old(tabs)@.len(),
    ensures
        applied == tab_effect(old(tabs)@, *old(active) as int, cmd) is Some,
        applied ==> tab_effect(old(tabs)@, *old(active) as int, cmd) == Some(
            (final(tabs)@, *final(active) as int),
        ),
        !applied ==> final(tabs)@ == old(tabs)@ && *final(active) == *old(active),
        *final(active) < final(tabs)@.len(),
{
    let n = tabs.len();
    match cmd {
        TabCommand::Close => {
            if n <= 1 {
                return false;
            }
            tabs.remove(*active);
            if *active >= tabs.len() {
                *active = tabs.len() - 1;
            }
            true
        },
        TabCommand::Next => {
            if n <= 1 {
                return false;
            }
            *active = (*active + 1) % n;
            true
        },
        TabCommand::Previous => {
            if n <= 1 {
                return false;
            }
            *active = if *active == 0 {
                n - 1
            } else {
                *active - 1
            };
            true
        },
        TabCommand::MoveLeft => {
            if *active == 0 {
                return false;
            }
            swap_adjacent(tabs, *active - 1);
            *active = *active - 1;
            true
        },
        TabCommand::MoveRight => {
            if *active + 1 >= n {
                return false;
            }
            swap_adjacent(tabs, *active);
            *active = *active + 1;
            true
        },
        TabCommand::Jump(i) => {
            if i < n {
                *active = i;
            }
            true
        },
    }
}

/// Opens a tab after the others and makes it the active one.
pub fn open_tab<T>(tabs: &mut Vec<T>, active: &mut usize, tab: T)
    requires
        old(tabs)@.len() < usize::MAX,
    ensures
        final(tabs)@ == old(tabs)@.push(tab),
        *final(active) == old(tabs)@.len(),
{
    tabs.push(tab);
    *active = tabs.len() - 1;
}

/// The go-to history entry that Up shows: the one before the shown one,
/// else the newest. `None` when there is no history.
pub open spec fn history_back(len: nat, shown: Option<usize>) -> Option<usize> {
    if len == 0 {
        None
    } else {
        match shown {
            Some(i) if i > 0 => Some((i - 1) as usize),
            _ => Some((len - 1) as usize),
        }
    }
}

pub fn goto_history_back(len: usize, shown: Option<usize>) -> (r: Option<usize>)
    ensures
        r == history_back(len as nat, shown),
{
    if len == 0 {
        return None;
    }
    match shown {
        Some(i) => if i > 0 {
            Some(i - 1)
        } else {
            Some(len - 1)
        },
        None => Some(len - 1),
    }
}

/// What Down does in the go-to history: the entry after the shown one;
/// past the newest, an empty line (`Some(None)`); with none shown, the
/// newest. `None` when nothing changes.
pub open spec fn history_forward(len: nat, shown: Option<usize>) -> Option<Option<usize>> {
    match shown {
        Some(i) => if i + 1 < len {
            Some(Some((i + 1) as usize))
        } else {
            Some(None)
        },
        None => if len > 0 {
            Some(Some((len - 1) as usize))
        } else {
            None
        },
    }
}

pub fn goto_history_forward(len: usize, shown: Option<usize>) -> (r: Option<Option<usize>>)
    ensures
        r == history_forward(len as nat, shown),
{
    match shown {
        Some(i) => if i < len && i + 1 < len {
            Some(Some(i + 1))
        } else {
            Some(None)
        },
        None => if len > 0 {
            Some(Some(len - 1))
        } else {
            None
        },
    }
}

/// The first press of an action that asks for confirmation only asks; the
/// second press of the same action goes ahead. Says whether the action
/// runs now.
pub fn confirm_action(state: &mut BrowserState, id: &str, target: &str, confirm: Option<&str>) -> (go: bool)
    ensures
        ({
            let same = match old(state).pending_confirmation {
                Some(p) => p.id@ == id@ && p.target@ == target@,
                None => false,
            };
            match confirm {
                Some(prompt) => if same {
                    go && final(state).pending_confirmation is None
                } else {
                    &&& !go
                    &&& final(state).status@ == prompt@ + " Press Enter again to confirm."@
                    &&& final(state).pending_confirmation matches Some(p) && p.id@ == id@
                        && p.target@ == target@
                },
                None => go && final(state).pending_confirmation is None,
            }
        }),
        go ==> *final(state) == (BrowserState { pending_confirmation: None, ..*old(state) }),
        !go ==> *final(state) == (BrowserState {
            status: final(state).status,
            pending_confirmation: final(state).pending_confirmation,
            ..*old(state)
        }),
{
    if let Some(prompt) = confirm {
        let same = match &state.pending_confirmation {
            Some(p) => text::chars_eq(text::chars_of(p.id.as_str()).as_slice(), text::chars_of(id).as_slice())
                && text::chars_eq(
                text::chars_of(p.target.as_str()).as_slice(),
                text::chars_of(target).as_slice(),
            ),
            None => false,
        };
        if !same {
            state.pending_confirmation = Some(
                ActionConfirmation { id: String::from_str(id), target: String::from_str(target) },
            );
            let mut status = text::chars_of(prompt);
            text::push_str(&mut status, " Press Enter again to confirm.");
            state.status = text::string_from(status.as_slice());
            return false;
        }
    }
    state.pending_confirmation = None;
    true
}

} // verus!
