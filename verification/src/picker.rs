//! The window picker's state: a cached enumeration of capturable windows,
//! refreshed when it grows stale, and a search filter applied to it. Walking
//! the live window list is host work; the cache, the staleness test and the
//! filter are decided here.

use vstd::prelude::*;
use crate::enumerator::WindowInfo;
use crate::text::{contains_substring, has_substring, lower_of, lowercase};

verus! {

/// The search filter keeps a window when the folded filter is empty or
/// occurs in the window's folded title or folded executable name.
pub open spec fn picker_keeps(w: WindowInfo, filt: Seq<char>) -> bool {
    ||| lower_of(filt).len() == 0
    ||| has_substring(lower_of(w.title@), lower_of(filt))
    ||| has_substring(lower_of(w.exe_name@), lower_of(filt))
}

/// Window picker panel state.
pub struct WindowPicker {
    windows: Vec<WindowInfo>,
    search_filter: String,
    last_refresh_us: u64,
    refresh_interval_us: u64,
}

impl WindowPicker {
    /// The cached enumeration.
    pub closed spec fn spec_windows(&self) -> Seq<WindowInfo> {
        self.windows@
    }

    /// The current search filter.
    pub closed spec fn spec_filter(&self) -> Seq<char> {
        self.search_filter@
    }

    /// When the cache was last refreshed.
    pub closed spec fn spec_last_refresh(&self) -> u64 {
        self.last_refresh_us
    }

    /// How old the cache may grow before a refresh is due.
    pub closed spec fn spec_interval(&self) -> u64 {
        self.refresh_interval_us
    }

    /// A picker with an empty cache, due for its first refresh.
    pub fn new() -> (picker: WindowPicker)
        ensures
            picker.spec_windows() == Seq::<WindowInfo>::empty(),
            picker.spec_filter() == Seq::<char>::empty(),
            picker.spec_last_refresh() == 0,
            picker.spec_interval() == 2_000_000,
    {
        WindowPicker {
            windows: Vec::new(),
            search_filter: String::new(),
            last_refresh_us: 0,
            refresh_interval_us: 2_000_000,
        }
    }

    /// Replace the cache with a fresh enumeration taken at `now_us`.
    pub fn refresh(&mut self, windows: Vec<WindowInfo>, now_us: u64)
        ensures
            final(self).spec_windows() == windows@,
            final(self).spec_filter() == old(self).spec_filter(),
            final(self).spec_last_refresh() == now_us,
            final(self).spec_interval() == old(self).spec_interval(),
    {
        self.windows = windows;
        self.last_refresh_us = now_us;
    }

    /// Whether the cache is older than the refresh interval.
    pub fn needs_refresh(&self, now_us: u64) -> (due: bool)
        ensures
            due == (now_us > self.spec_last_refresh() && now_us - self.spec_last_refresh()
                > self.spec_interval()),
    {
        now_us > self.last_refresh_us && now_us - self.last_refresh_us > self.refresh_interval_us
    }

    /// Set the search filter text.
    pub fn set_search_filter(&mut self, text: String)
        ensures
            final(self).spec_filter() == text@,
            final(self).spec_windows() == old(self).spec_windows(),
            final(self).spec_last_refresh() == old(self).spec_last_refresh(),
            final(self).spec_interval() == old(self).spec_interval(),
    {
        self.search_filter = text;
    }

    /// The cached enumeration.
    pub fn windows(&self) -> (cached: &Vec<WindowInfo>)
        ensures
            cached@ == self.spec_windows(),
    {
        &self.windows
    }

    /// How many windows the cache holds.
    pub fn window_count(&self) -> (n: usize)
        ensures
            n == self.spec_windows().len(),
    {
        self.windows.len()
    }

    /// The positions, in cache order, of the windows the search filter
    /// keeps.
    pub fn filtered_indices(&self) -> (kept: Vec<usize>)
        ensures
            forall|a: int|
                0 <= a < kept@.len() ==> (#[trigger] kept@[a]) < self.spec_windows().len()
                    && picker_keeps(self.spec_windows()[kept@[a] as int], self.spec_filter()),
            forall|a: int, b: int| 0 <= a < b < kept@.len() ==> kept@[a] < kept@[b],
            forall|i: int|
                0 <= i < self.spec_windows().len() && picker_keeps(
                    #[trigger] self.spec_windows()[i],
                    self.spec_filter(),
                ) ==> exists|a: int| 0 <= a < kept@.len() && kept@[a] == i,
    {
        let filter_low = lowercase(self.search_filter.as_str());
        let n = self.windows.len();
        let mut kept: Vec<usize> = Vec::new();
        let mut i: usize = 0;
        while i < n
            invariant
                i <= n,
                n == self.spec_windows().len(),
                n == self.windows@.len(),
                filter_low@ == lower_of(self.spec_filter()),
                forall|a: int|
                    0 <= a < kept@.len() ==> (#[trigger] kept@[a]) < i && picker_keeps(
                        self.spec_windows()[kept@[a] as int],
                        self.spec_filter(),
                    ),
                forall|a: int, b: int| 0 <= a < b < kept@.len() ==> kept@[a] < kept@[b],
                forall|j: int|
                    0 <= j < i && picker_keeps(#[trigger] self.spec_windows()[j], self.spec_filter())
                        ==> exists|a: int| 0 <= a < kept@.len() && kept@[a] == j,
            decreases n - i,
        {
            let keep = if filter_low.as_str().is_empty() {
                true
            } else {
                let title_low = lowercase(self.windows[i].title.as_str());
                if contains_substring(title_low.as_str(), filter_low.as_str()) {
                    true
                } else {
                    let exe_low = lowercase(self.windows[i].exe_name.as_str());
                    contains_substring(exe_low.as_str(), filter_low.as_str())
                }
            };
            if keep {
                assert(picker_keeps(self.spec_windows()[i as int], self.spec_filter()));
                let ghost old_kept = kept@;
                kept.push(i);
                proof {
                    assert forall|j: int|
                        0 <= j < i + 1 && picker_keeps(
                            #[trigger] self.spec_windows()[j],
                            self.spec_filter(),
                        ) implies exists|a: int| 0 <= a < kept@.len() && kept@[a] == j by {
                        if j < i {
                            let a = choose|a: int| 0 <= a < old_kept.len() && old_kept[a] == j;
                            assert(kept@[a] == j);
                        } else {
                            assert(kept@[kept@.len() - 1] == i);
                        }
                    }
                }
            } else {
                assert(!picker_keeps(self.spec_windows()[i as int], self.spec_filter()));
            }
            i = i + 1;
        }
        kept
    }
}

} // verus!
