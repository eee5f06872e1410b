//! The interactive list selector, as a state machine over key events. The
//! terminal shell owns raw mode, the alternate screen and redrawing; it
//! feeds decoded keys to [`Menu::handle_key`] (or a whole script of them to
//! [`Menu::resolve`]) and acts on the outcome. The selection index moves
//! with Up and Down, clamped at both ends — it never wraps and never leaves
//! the item list.

use vstd::prelude::*;

verus! {

/// A decoded key event: the only inputs the selector distinguishes.
/// `Other` stands for every key that leaves the state unchanged.
#[derive(Clone, Copy, Debug, PartialEq, Eq, Structural)]
pub enum MenuKey {
    Up,
    Down,
    Confirm,
    Cancel,
    Other,
}

/// What a key (or a script of keys) resolved to: still waiting for input,
/// the item at the carried index chosen, or the selection cancelled by the
/// user.
#[derive(Clone, Copy, Debug, PartialEq, Eq, Structural)]
pub enum MenuOutcome {
    Pending,
    Chosen(usize),
    Cancelled,
}

/// Mathematical image of a [`Menu`].
pub struct MenuView {
    pub note: Seq<char>,
    pub items: Seq<Seq<char>>,
    pub selected: int,
}

impl MenuView {
    /// The selection index stays inside the item list (and at 0 while the
    /// list is still empty).
    pub open spec fn wf(self) -> bool {
        if self.items.len() == 0 {
            self.selected == 0
        } else {
            0 <= self.selected < self.items.len()
        }
    }
}

/// Where the selection stands after one key: Down moves it forward unless
/// it already sits on the last item, Up moves it back unless it sits on the
/// first, everything else leaves it.
pub open spec fn sel_after_key(sel: int, n: int, key: MenuKey) -> int {
    match key {
        MenuKey::Down => if sel + 1 < n {
            sel + 1
        } else {
            sel
        },
        MenuKey::Up => if sel > 0 {
            sel - 1
        } else {
            0
        },
        _ => sel,
    }
}

/// What one key resolves to: Confirm chooses the item the selection sits
/// on, Cancel gives up, everything else keeps waiting.
pub open spec fn outcome_of_key(sel: int, key: MenuKey) -> MenuOutcome {
    match key {
        MenuKey::Confirm => MenuOutcome::Chosen(sel as usize),
        MenuKey::Cancel => MenuOutcome::Cancelled,
        _ => MenuOutcome::Pending,
    }
}

/// What a whole script of keys resolves to, from selection `sel` over `n`
/// items: the first Confirm chooses the index the selection has reached,
/// the first Cancel gives up, and a script that runs out of keys chooses
/// the index it reached — as the selector does when its input ends.
pub open spec fn resolve_keys(sel: int, n: int, keys: Seq<MenuKey>) -> MenuOutcome
    decreases keys.len(),
{
    if keys.len() == 0 {
        MenuOutcome::Chosen(sel as usize)
    } else {
        match keys[0] {
            MenuKey::Confirm => MenuOutcome::Chosen(sel as usize),
            MenuKey::Cancel => MenuOutcome::Cancelled,
            _ => resolve_keys(sel_after_key(sel, n, keys[0]), n, keys.skip(1)),
        }
    }
}

/// The selector: a fixed prompt, the items to pick from, and the
/// highlighted index.
pub struct Menu {
    note: String,
    items: Vec<String>,
    selected: usize,
}

impl View for Menu {
    type V = MenuView;

    closed spec fn view(&self) -> MenuView {
        MenuView {
            note: self.note@,
            items: self.items@.map_values(|s: String| s@),
            selected: self.selected as int,
        }
    }
}

impl Menu {
    /// An empty selector showing `note`; items come via [`Menu::add_item`].
    pub fn new(note: &str) -> (r: Menu)
        ensures
            r@.wf(),
            r@.note == note@,
            r@.items.len() == 0,
            r@.selected == 0,
    {
        let r = Menu { note: note.to_owned(), items: Vec::new(), selected: 0 };
        proof {
            assert(r@.items =~= Seq::<Seq<char>>::empty());
        }
        r
    }

    /// A selector showing `note` over the given items, first one selected.
    pub fn from_vec(note: &str, items: &[&str]) -> (r: Menu)
        ensures
            r@.wf(),
            r@.note == note@,
            r@.items.len() == items@.len(),
            forall|i: int| 0 <= i < items@.len() ==> r@.items[i] == (#[trigger] items@[i])@,
            r@.selected == 0,
    {
        let mut owned: Vec<String> = Vec::new();
        let n = items.len();
        let mut i: usize = 0;
        while i < n
            invariant
                n == items@.len(),
                i <= n,
                owned@.len() == i,
                forall|j: int| 0 <= j < i ==> (#[trigger] owned@[j])@ == items@[j]@,
            decreases n - i,
        {
            let item: &str = items[i];
            owned.push(item.to_owned());
            i += 1;
        }
        let r = Menu { note: note.to_owned(), items: owned, selected: 0 };
        r
    }

    /// Appends one item to the list; the selection does not move.
    pub fn add_item(&mut self, item: &str)
        requires
            old(self)@.wf(),
        ensures
            final(self)@.wf(),
            final(self)@.note == old(self)@.note,
            final(self)@.items == old(self)@.items.push(item@),
            final(self)@.selected == old(self)@.selected,
    {
        self.items.push(item.to_owned());
        proof {
            assert(self@.items =~= old(self)@.items.push(item@));
        }
    }

    /// Steps the selector by one key: the selection moves as
    /// [`sel_after_key`] says (clamped, no wraparound) and the outcome is
    /// [`outcome_of_key`] — in particular, Confirm chooses the item the
    /// selection sat on when it was pressed.
    pub fn handle_key(&mut self, key: MenuKey) -> (r: MenuOutcome)
        requires
            old(self)@.wf(),
            old(self)@.items.len() > 0,
        ensures
            final(self)@.wf(),
            final(self)@.note == old(self)@.note,
            final(self)@.items == old(self)@.items,
            final(self)@.selected == sel_after_key(
                old(self)@.selected,
                old(self)@.items.len() as int,
                key,
            ),
            r == outcome_of_key(old(self)@.selected, key),
    {
        match key {
            MenuKey::Down => {
                if self.selected < self.items.len() - 1 {
                    self.selected = self.selected + 1;
                }
                MenuOutcome::Pending
            },
            MenuKey::Up => {
                if self.selected > 0 {
                    self.selected = self.selected - 1;
                }
                MenuOutcome::Pending
            },
            MenuKey::Confirm => MenuOutcome::Chosen(self.selected),
            MenuKey::Cancel => MenuOutcome::Cancelled,
            MenuKey::Other => MenuOutcome::Pending,
        }
    }

    /// Runs the selector over a whole script of keys, as the interactive
    /// loop does over keystrokes: stops at the first Confirm or Cancel, and
    /// chooses the reached index when the script runs out. The result is
    /// exactly [`resolve_keys`] and is never `Pending`.
    pub fn resolve(&mut self, keys: &Vec<MenuKey>) -> (r: MenuOutcome)
        requires
            old(self)@.wf(),
            old(self)@.items.len() > 0,
        ensures
            final(self)@.wf(),
            final(self)@.note == old(self)@.note,
            final(self)@.items == old(self)@.items,
            r == resolve_keys(old(self)@.selected, old(self)@.items.len() as int, keys@),
            r != MenuOutcome::Pending,
            forall|i: usize| r == MenuOutcome::Chosen(i) ==> i < old(self)@.items.len(),
    {
        let n = keys.len();
        let mut i: usize = 0;
        proof {
            assert(keys@.skip(0) =~= keys@);
        }
        while i < n
            invariant
                n == keys@.len(),
                i <= n,
                self@.wf(),
                self@.items.len() > 0,
                self@.note == old(self)@.note,
                self@.items == old(self)@.items,
                resolve_keys(old(self)@.selected, old(self)@.items.len() as int, keys@)
                    == resolve_keys(self@.selected, self@.items.len() as int, keys@.skip(i as int)),
            decreases n - i,
        {
            let key = keys[i];
            let ghost pre_sel = self@.selected;
            let outcome = self.handle_key(key);
            proof {
                assert(keys@.skip(i as int)[0] == key);
                assert(keys@.skip(i as int).skip(1) =~= keys@.skip(i + 1));
            }
            match outcome {
                MenuOutcome::Chosen(sel) => {
                    return MenuOutcome::Chosen(sel);
                },
                MenuOutcome::Cancelled => {
                    return MenuOutcome::Cancelled;
                },
                MenuOutcome::Pending => {},
            }
            i += 1;
        }
        proof {
            assert(keys@.skip(n as int) =~= Seq::<MenuKey>::empty());
        }
        MenuOutcome::Chosen(self.selected_index())
    }

    /// The highlighted index.
    pub fn selected_index(&self) -> (r: usize)
        ensures
            r == self@.selected,
    {
        self.selected
    }

    /// How many items the selector holds.
    pub fn len(&self) -> (r: usize)
        ensures
            r == self@.items.len(),
    {
        self.items.len()
    }

    /// The item the selection sits on — what Confirm would choose.
    pub fn current_item(&self) -> (r: &String)
        requires
            self@.wf(),
            self@.items.len() > 0,
        ensures
            r@ == self@.items[self@.selected],
    {
        &self.items[self.selected]
    }

    /// The item at `i`, for rendering the list.
    pub fn item_at(&self, i: usize) -> (r: &String)
        requires
            i < self@.items.len(),
        ensures
            r@ == self@.items[i as int],
    {
        &self.items[i]
    }

    /// The prompt line.
    pub fn note(&self) -> (r: &String)
        ensures
            r@ == self@.note,
    {
        &self.note
    }
}

/// Law: Down never wraps — from the last item it stays on the last item —
/// and Up never wraps nor underflows — from the first item it stays on the
/// first. Whatever the key, a well-formed selection stays well-formed.
pub proof fn lemma_selection_clamped(sel: int, n: int, key: MenuKey)
    requires
        n > 0,
        0 <= sel < n,
    ensures
        0 <= sel_after_key(sel, n, key) < n,
        sel == n - 1 && key == MenuKey::Down ==> sel_after_key(sel, n, key) == n - 1,
        sel == 0 && key == MenuKey::Up ==> sel_after_key(sel, n, key) == 0,
{
}

} // verus!
