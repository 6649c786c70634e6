//! Navigation over the entry list: a selection cursor that moves up and
//! down, skipping section headers, and never wraps around at either end.

use vstd::prelude::*;

use crate::model::Config;
use crate::model::EntryModel;
use crate::model::Value;

verus! {

/// The greatest position at or below `j` holding a non-header entry.
pub open spec fn scan_up(entries: Seq<EntryModel>, j: int) -> Option<int>
    decreases j + 1,
    when j < entries.len()
{
    if j < 0 {
        None
    } else if !entries[j].value.is_category() {
        Some(j)
    } else {
        scan_up(entries, j - 1)
    }
}

/// The least position at or above `j` holding a non-header entry.
pub open spec fn scan_down(entries: Seq<EntryModel>, j: int) -> Option<int>
    decreases entries.len() - j,
    when j >= 0
{
    if j >= entries.len() {
        None
    } else if !entries[j].value.is_category() {
        Some(j)
    } else {
        scan_down(entries, j + 1)
    }
}

/// Where a move up from `s` lands: the nearest non-header entry strictly
/// above, or `s` itself when none exists.
pub open spec fn spec_move_up(entries: Seq<EntryModel>, s: int) -> int {
    match scan_up(entries, s - 1) {
        Some(k) => k,
        None => s,
    }
}

/// Where a move down from `s` lands: the nearest non-header entry strictly
/// below, or `s` itself when none exists.
pub open spec fn spec_move_down(entries: Seq<EntryModel>, s: int) -> int {
    match scan_down(entries, s + 1) {
        Some(k) => k,
        None => s,
    }
}

/// The initial selection: the first non-header entry, or position zero
/// when every entry is a header or the list is empty.
pub open spec fn spec_first_selectable(entries: Seq<EntryModel>) -> int {
    match scan_down(entries, 0) {
        Some(k) => k,
        None => 0,
    }
}

pub proof fn lemma_scan_up(entries: Seq<EntryModel>, j: int)
    requires
        j < entries.len(),
    ensures
        match scan_up(entries, j) {
            Some(k) => {
                &&& 0 <= k <= j
                &&& !entries[k].value.is_category()
                &&& forall|l: int| k < l <= j ==> (#[trigger] entries[l].value).is_category()
            },
            None => forall|l: int| 0 <= l <= j ==> (#[trigger] entries[l].value).is_category(),
        },
    decreases j + 1,
{
    if j >= 0 && entries[j].value.is_category() {
        lemma_scan_up(entries, j - 1);
    }
}

pub proof fn lemma_scan_down(entries: Seq<EntryModel>, j: int)
    requires
        j >= 0,
    ensures
        match scan_down(entries, j) {
            Some(k) => {
                &&& j <= k < entries.len()
                &&& !entries[k].value.is_category()
                &&& forall|l: int| j <= l < k ==> (#[trigger] entries[l].value).is_category()
            },
            None => forall|l: int|
                j <= l < entries.len() ==> (#[trigger] entries[l].value).is_category(),
        },
    decreases entries.len() - j,
{
    if j < entries.len() && entries[j].value.is_category() {
        lemma_scan_down(entries, j + 1);
    }
}

/// Once the selection stands on a non-header entry, no move puts it on a
/// header: a move either finds a non-header entry or stays put.
pub proof fn lemma_navigation_avoids_headers(entries: Seq<EntryModel>, s: int)
    requires
        0 <= s < entries.len(),
        !entries[s].value.is_category(),
    ensures
        !entries[spec_move_up(entries, s)].value.is_category(),
        !entries[spec_move_down(entries, s)].value.is_category(),
        0 <= spec_move_up(entries, s) <= s,
        s <= spec_move_down(entries, s) < entries.len(),
{
    lemma_scan_up(entries, s - 1);
    lemma_scan_down(entries, s + 1);
}

impl Config {
    /// Moves the selection up to the nearest non-header entry; at the top
    /// boundary, with no non-header entry above, the selection stays.
    pub fn move_up(&self, selected: usize) -> (r: usize)
        requires
            selected < self.entries@.len(),
        ensures
            r as int == spec_move_up(self@.entries, selected as int),
            r <= selected,
            r != selected ==> !self@.entries[r as int].value.is_category(),
    {
        proof {
            lemma_scan_up(self@.entries, selected as int - 1);
        }
        let mut new = selected;
        while new > 0
            invariant
                new <= selected < self.entries@.len(),
                scan_up(self@.entries, selected as int - 1) == scan_up(self@.entries, new as int - 1),
            decreases new,
        {
            new -= 1;
            let is_cat = matches!(self.entries[new].value, Value::Category);
            proof {
                assert(self@.entries[new as int] == self.entries@[new as int]@);
            }
            if !is_cat {
                return new;
            }
        }
        selected
    }

    /// Moves the selection down to the nearest non-header entry; at the
    /// bottom boundary, with no non-header entry below, the selection stays.
    pub fn move_down(&self, selected: usize) -> (r: usize)
        requires
            selected < self.entries@.len(),
        ensures
            r as int == spec_move_down(self@.entries, selected as int),
            r >= selected,
            r != selected ==> !self@.entries[r as int].value.is_category(),
    {
        proof {
            lemma_scan_down(self@.entries, selected as int + 1);
        }
        let n = self.entries.len();
        let mut new = selected;
        while new + 1 < n
            invariant
                n == self.entries@.len(),
                selected <= new < self.entries@.len(),
                scan_down(self@.entries, selected as int + 1) == scan_down(
                    self@.entries,
                    new as int + 1,
                ),
            decreases self.entries@.len() - new,
        {
            new += 1;
            let is_cat = matches!(self.entries[new].value, Value::Category);
            proof {
                assert(self@.entries[new as int] == self.entries@[new as int]@);
            }
            if !is_cat {
                return new;
            }
        }
        selected
    }

    /// The initial selection: the first non-header entry, or position zero
    /// when none exists.
    pub fn first_selectable(&self) -> (r: usize)
        ensures
            r as int == spec_first_selectable(self@.entries),
            r == 0 || !self@.entries[r as int].value.is_category(),
    {
        proof {
            lemma_scan_down(self@.entries, 0);
        }
        let mut i: usize = 0;
        while i < self.entries.len()
            invariant
                i <= self.entries@.len(),
                scan_down(self@.entries, 0) == scan_down(self@.entries, i as int),
            decreases self.entries@.len() - i,
        {
            let is_cat = matches!(self.entries[i].value, Value::Category);
            proof {
                assert(self@.entries[i as int] == self.entries@[i as int]@);
            }
            if !is_cat {
                return i;
            }
            i += 1;
        }
        0
    }
}

} // verus!
