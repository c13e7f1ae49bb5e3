//! The interaction state machine: input modes, the selection cursor,
//! category switching, the numeric jump, and the summary modal.
//!
//! Input precedence is modal, then help, then numeric jump, then
//! normal.  Every selection change resets the marquee to its origin.

use vstd::prelude::*;
use crate::entry::{Category, Entry};
use crate::marquee::{MarqueeDirection, MarqueeState};
use crate::text::{spec_wrap_text, wrap_text_for_display};

verus! {

/// Largest number of rows the list ever shows.
pub const ROW_CAP: usize = 999;

/// Rows a page jump moves by.
pub const PAGE_STRIDE: usize = 10;

#[derive(Clone, Copy, Debug, PartialEq, Eq, Structural)]
pub enum InputMode {
    Normal,
    NumberJump,
}

/// The whole interaction state of the dashboard.
pub struct App {
    /// The categories, in tab order.
    pub categories: Vec<Category>,
    pub current_category: usize,
    /// The merged entry list of each category, parallel to `categories`.
    pub entries: Vec<Vec<Entry>>,
    /// Cursor into the current category's row-limited list.
    pub selected: Option<usize>,
    pub marquee: MarqueeState,
    pub input_mode: InputMode,
    /// The digits typed so far in a numeric jump.
    pub input_number: Vec<char>,
    /// The selection to restore when a numeric jump is cancelled.
    pub pre_input_selected: Option<usize>,
    pub show_help: bool,
    pub show_modal: bool,
    /// The summary, wrapped for the modal at `modal_wrapped_width`.
    pub modal_text: Vec<String>,
    pub modal_raw_text: String,
    pub modal_wrapped_width: usize,
    pub modal_scroll: usize,
    pub summarizing: bool,
    pub summarize_url: String,
    pub terminal_width: usize,
    pub terminal_height: usize,
}

impl App {
    /// Structural soundness: one entry list per category, the active
    /// tab in range, the marquee shift non-negative, and the typed jump
    /// number at most three digits.
    pub open spec fn wf(&self) -> bool {
        &&& self.entries@.len() == self.categories@.len()
        &&& self.categories@.len() > 0 ==> self.current_category < self.categories@.len()
        &&& self.marquee.shift >= 0
        &&& self.terminal_width <= 0xffff
        &&& self.terminal_height <= 0xffff
        &&& self.input_number@.len() <= 3
        &&& forall|i: int|
            0 <= i < self.input_number@.len() ==> '0' <= #[trigger] self.input_number@[i] <= '9'
    }

    /// A fresh dashboard over the given categories, nothing selected.
    pub fn new(categories: Vec<Category>) -> (r: App)
        ensures
            r.wf(),
            r.categories@ == categories@,
            r.current_category == 0,
            r.selected is None,
            r.input_mode == InputMode::Normal,
            r.marquee.shift == 0,
            r.marquee.direction == MarqueeDirection::Left,
            r.marquee.tick_count == 0,
            !r.show_help,
            !r.show_modal,
            !r.summarizing,
            forall|i: int| 0 <= i < r.entries@.len() ==> r.entries@[i]@.len() == 0,
    {
        let n = categories.len();
        let mut entries: Vec<Vec<Entry>> = Vec::new();
        let mut i: usize = 0;
        while i < n
            invariant
                i <= n,
                entries@.len() == i,
                forall|j: int| 0 <= j < i ==> entries@[j]@.len() == 0,
            decreases n - i,
        {
            entries.push(Vec::new());
            i = i + 1;
        }
        App {
            categories,
            current_category: 0,
            entries,
            selected: None,
            marquee: MarqueeState::origin(),
            input_mode: InputMode::Normal,
            input_number: Vec::new(),
            pre_input_selected: None,
            show_help: false,
            show_modal: false,
            modal_text: Vec::new(),
            modal_raw_text: String::new(),
            modal_wrapped_width: 0,
            modal_scroll: 0,
            summarizing: false,
            summarize_url: String::new(),
            terminal_width: 80,
            terminal_height: 24,
        }
    }

    /// The entry count of the current category.
    pub fn current_entry_count(&self) -> (r: usize)
        requires
            self.wf(),
        ensures
            r == (if self.categories@.len() > 0 {
                self.entries@[self.current_category as int]@.len()
            } else {
                0
            }),
    {
        if self.categories.len() > 0 {
            self.entries[self.current_category].len()
        } else {
            0
        }
    }

    /// How many rows the current list shows: bounded by the entry
    /// count, the rows the terminal has below the chrome, and the cap.
    pub open spec fn spec_row_limit(&self) -> int {
        let rows = if self.terminal_height >= 2 {
            self.terminal_height - 2
        } else {
            0
        };
        let count = if self.categories@.len() > 0 {
            self.entries@[self.current_category as int]@.len() as int
        } else {
            0
        };
        let a = if count <= rows {
            count
        } else {
            rows
        };
        if a <= ROW_CAP {
            a
        } else {
            ROW_CAP as int
        }
    }

    pub fn row_limit(&self) -> (r: usize)
        requires
            self.wf(),
        ensures
            r == self.spec_row_limit(),
    {
        let rows = if self.terminal_height >= 2 {
            self.terminal_height - 2
        } else {
            0
        };
        let count = self.current_entry_count();
        let a = if count <= rows {
            count
        } else {
            rows
        };
        if a <= ROW_CAP {
            a
        } else {
            ROW_CAP
        }
    }

    /// Everything a selection change resets.
    pub open spec fn marquee_reset(&self) -> bool {
        self.marquee.shift == 0 && self.marquee.direction == MarqueeDirection::Left
    }

    /// Only the cursor and the marquee changed.
    pub open spec fn same_but_cursor(&self, o: &App) -> bool {
        &&& self.categories@ == o.categories@
        &&& self.current_category == o.current_category
        &&& self.entries@ == o.entries@
        &&& self.input_mode == o.input_mode
        &&& self.input_number@ == o.input_number@
        &&& self.pre_input_selected == o.pre_input_selected
        &&& self.show_help == o.show_help
        &&& self.show_modal == o.show_modal
        &&& self.modal_text@ == o.modal_text@
        &&& self.modal_raw_text == o.modal_raw_text
        &&& self.modal_wrapped_width == o.modal_wrapped_width
        &&& self.modal_scroll == o.modal_scroll
        &&& self.summarizing == o.summarizing
        &&& self.summarize_url == o.summarize_url
        &&& self.terminal_width == o.terminal_width
        &&& self.terminal_height == o.terminal_height
    }

    /// Moves the cursor one row down, wrapping to the top; a free
    /// cursor lands on the first row.  Resets the marquee.
    pub fn move_down(&mut self)
        requires
            old(self).wf(),
        ensures
            final(self).wf(),
            final(self).same_but_cursor(old(self)),
            final(self).marquee_reset(),
            final(self).selected == (if old(self).spec_row_limit() == 0 {
                old(self).selected
            } else {
                match old(self).selected {
                    Some(i) => if i + 1 >= old(self).spec_row_limit() {
                        Some(0usize)
                    } else {
                        Some((i + 1) as usize)
                    },
                    None => Some(0usize),
                }
            }),
    {
        self.marquee.reset();
        let limit = self.row_limit();
        if limit == 0 {
            return ;
        }
        self.selected = Some(
            match self.selected {
                Some(i) => if i >= limit - 1 {
                    0
                } else {
                    i + 1
                },
                None => 0,
            },
        );
    }

    /// Moves the cursor one row up, wrapping to the bottom; a free
    /// cursor lands on the last row.  Resets the marquee.
    pub fn move_up(&mut self)
        requires
            old(self).wf(),
        ensures
            final(self).wf(),
            final(self).same_but_cursor(old(self)),
            final(self).marquee_reset(),
            final(self).selected == (if old(self).spec_row_limit() == 0 {
                old(self).selected
            } else {
                match old(self).selected {
                    Some(i) => if i == 0 {
                        Some((old(self).spec_row_limit() - 1) as usize)
                    } else {
                        Some((i - 1) as usize)
                    },
                    None => Some((old(self).spec_row_limit() - 1) as usize),
                }
            }),
    {
        self.marquee.reset();
        let limit = self.row_limit();
        if limit == 0 {
            return ;
        }
        self.selected = Some(
            match self.selected {
                Some(i) => if i == 0 {
                    limit - 1
                } else {
                    i - 1
                },
                None => limit - 1,
            },
        );
    }

    /// Jumps the cursor a page down, wrapping to the top when the
    /// stride overruns.  Resets the marquee.
    pub fn page_down(&mut self)
        requires
            old(self).wf(),
        ensures
            final(self).wf(),
            final(self).same_but_cursor(old(self)),
            final(self).marquee_reset(),
            final(self).selected == (if old(self).spec_row_limit() == 0 {
                old(self).selected
            } else {
                match old(self).selected {
                    Some(i) => if i + PAGE_STRIDE >= old(self).spec_row_limit() {
                        Some(0usize)
                    } else {
                        Some((i + PAGE_STRIDE) as usize)
                    },
                    None => Some(0usize),
                }
            }),
    {
        self.marquee.reset();
        let limit = self.row_limit();
        if limit == 0 {
            return ;
        }
        self.selected = Some(
            match self.selected {
                Some(i) => if i >= limit || PAGE_STRIDE >= limit - i {
                    0
                } else {
                    i + PAGE_STRIDE
                },
                None => 0,
            },
        );
    }

    /// Jumps the cursor a page up, wrapping to the bottom when the
    /// stride overruns.  Resets the marquee.
    pub fn page_up(&mut self)
        requires
            old(self).wf(),
        ensures
            final(self).wf(),
            final(self).same_but_cursor(old(self)),
            final(self).marquee_reset(),
            final(self).selected == (if old(self).spec_row_limit() == 0 {
                old(self).selected
            } else {
                match old(self).selected {
                    Some(i) => if i < PAGE_STRIDE {
                        Some((old(self).spec_row_limit() - 1) as usize)
                    } else {
                        Some((i - PAGE_STRIDE) as usize)
                    },
                    None => Some((old(self).spec_row_limit() - 1) as usize),
                }
            }),
    {
        self.marquee.reset();
        let limit = self.row_limit();
        if limit == 0 {
            return ;
        }
        self.selected = Some(
            match self.selected {
                Some(i) => if i < PAGE_STRIDE {
                    limit - 1
                } else {
                    i - PAGE_STRIDE
                },
                None => limit - 1,
            },
        );
    }

    /// Puts the cursor on the first row.  Resets the marquee.
    pub fn go_top(&mut self)
        requires
            old(self).wf(),
        ensures
            final(self).wf(),
            final(self).same_but_cursor(old(self)),
            final(self).marquee_reset(),
            final(self).selected == (if old(self).spec_row_limit() > 0 {
                Some(0usize)
            } else {
                old(self).selected
            }),
    {
        self.marquee.reset();
        if self.row_limit() > 0 {
            self.selected = Some(0);
        }
    }

    /// Puts the cursor on the last row.  Resets the marquee.
    pub fn go_bottom(&mut self)
        requires
            old(self).wf(),
        ensures
            final(self).wf(),
            final(self).same_but_cursor(old(self)),
            final(self).marquee_reset(),
            final(self).selected == (if old(self).spec_row_limit() > 0 {
                Some((old(self).spec_row_limit() - 1) as usize)
            } else {
                old(self).selected
            }),
    {
        self.marquee.reset();
        let limit = self.row_limit();
        if limit > 0 {
            self.selected = Some(limit - 1);
        }
    }

    /// Clears the cursor.  Resets the marquee.
    pub fn deselect(&mut self)
        requires
            old(self).wf(),
        ensures
            final(self).wf(),
            final(self).same_but_cursor(old(self)),
            final(self).marquee_reset(),
            final(self).selected is None,
    {
        self.marquee.reset();
        self.selected = None;
    }

    /// Only the active tab, the cursor and the marquee changed.
    pub open spec fn same_but_category(&self, o: &App) -> bool {
        &&& self.categories@ == o.categories@
        &&& self.entries@ == o.entries@
        &&& self.input_mode == o.input_mode
        &&& self.input_number@ == o.input_number@
        &&& self.pre_input_selected == o.pre_input_selected
        &&& self.show_help == o.show_help
        &&& self.show_modal == o.show_modal
        &&& self.summarizing == o.summarizing
        &&& self.terminal_width == o.terminal_width
        &&& self.terminal_height == o.terminal_height
    }

    /// Switches to the next tab, wrapping; the caller then reloads the
    /// new category cache-first.  Clears the cursor, resets the
    /// marquee.
    pub fn next_category(&mut self)
        requires
            old(self).wf(),
            old(self).categories@.len() > 0,
        ensures
            final(self).wf(),
            final(self).same_but_category(old(self)),
            final(self).marquee_reset(),
            final(self).selected is None,
            final(self).current_category == (old(self).current_category + 1) % (
            old(self).categories@.len() as int),
    {
        let n = self.categories.len();
        proof {
            assert(self.current_category < n);
        }
        self.current_category = (self.current_category + 1) % n;
        self.selected = None;
        self.marquee.reset();
    }

    /// Switches to the previous tab, wrapping; the caller then reloads
    /// the new category cache-first.  Clears the cursor, resets the
    /// marquee.
    pub fn prev_category(&mut self)
        requires
            old(self).wf(),
            old(self).categories@.len() > 0,
        ensures
            final(self).wf(),
            final(self).same_but_category(old(self)),
            final(self).marquee_reset(),
            final(self).selected is None,
            final(self).current_category == (if old(self).current_category == 0 {
                old(self).categories@.len() - 1
            } else {
                old(self).current_category - 1
            }),
    {
        if self.current_category == 0 {
            self.current_category = self.categories.len() - 1;
        } else {
            self.current_category = self.current_category - 1;
        }
        self.selected = None;
        self.marquee.reset();
    }

    /// Switches straight to tab `idx` if it exists; the caller then
    /// reloads it cache-first.  Clears the cursor, resets the marquee.
    pub fn select_category(&mut self, idx: usize) -> (r: bool)
        requires
            old(self).wf(),
        ensures
            final(self).wf(),
            r == (idx < old(self).categories@.len()),
            r ==> final(self).same_but_category(old(self)) && final(self).marquee_reset()
                && final(self).selected is None && final(self).current_category == idx,
            !r ==> *final(self) == *old(self),
    {
        if idx < self.categories.len() {
            self.current_category = idx;
            self.selected = None;
            self.marquee.reset();
            true
        } else {
            false
        }
    }

    /// Replaces the current category's entries after a refresh; the
    /// cursor survives only by chance and is left as is, as every list
    /// mutation path clears it separately.
    pub fn set_current_entries(&mut self, entries: Vec<Entry>)
        requires
            old(self).wf(),
            old(self).categories@.len() > 0,
        ensures
            final(self).wf(),
            final(self).entries@ == old(self).entries@.update(
                old(self).current_category as int,
                entries,
            ),
            final(self).categories@ == old(self).categories@,
            final(self).current_category == old(self).current_category,
            final(self).selected == old(self).selected,
            final(self).marquee == old(self).marquee,
    {
        let idx = self.current_category;
        self.entries[idx] = entries;
    }

    /// Enters the numeric jump: remembers the cursor for a cancel,
    /// clears it, resets the marquee.
    pub fn enter_number_mode(&mut self)
        requires
            old(self).wf(),
        ensures
            final(self).wf(),
            final(self).input_mode == InputMode::NumberJump,
            final(self).pre_input_selected == old(self).selected,
            final(self).selected is None,
            final(self).input_number@.len() == 0,
            final(self).marquee_reset(),
            final(self).categories@ == old(self).categories@,
            final(self).entries@ == old(self).entries@,
            final(self).current_category == old(self).current_category,
    {
        self.pre_input_selected = self.selected;
        self.input_mode = InputMode::NumberJump;
        self.input_number = Vec::new();
        self.selected = None;
        self.marquee.reset();
    }

    /// Appends a typed digit, up to three.
    pub fn push_digit(&mut self, c: char)
        requires
            old(self).wf(),
            '0' <= c <= '9',
        ensures
            final(self).wf(),
            old(self).input_number@.len() < 3 ==> final(self).input_number@ == old(
                self,
            ).input_number@.push(c),
            old(self).input_number@.len() >= 3 ==> final(self).input_number@ == old(
                self,
            ).input_number@,
            final(self).selected == old(self).selected,
            final(self).input_mode == old(self).input_mode,
            final(self).entries@ == old(self).entries@,
            final(self).categories@ == old(self).categories@,
            final(self).current_category == old(self).current_category,
    {
        if self.input_number.len() < 3 {
            self.input_number.push(c);
        }
    }

    /// Removes the last typed digit; on an already-empty number the
    /// caller cancels the jump instead.
    pub fn pop_digit(&mut self) -> (r: bool)
        requires
            old(self).wf(),
        ensures
            final(self).wf(),
            r == (old(self).input_number@.len() > 0),
            r ==> final(self).input_number@ == old(self).input_number@.drop_last(),
            !r ==> *final(self) == *old(self),
            final(self).selected == old(self).selected,
            final(self).input_mode == old(self).input_mode,
    {
        if self.input_number.len() > 0 {
            let _ = self.input_number.pop();
            true
        } else {
            false
        }
    }

    /// Leaves the numeric jump.  A committed, parsable number inside
    /// `[1, row limit]` selects that row; anything else restores the
    /// cursor from before the jump.
    pub fn exit_number_mode(&mut self, apply: bool)
        requires
            old(self).wf(),
        ensures
            final(self).wf(),
            final(self).input_mode == InputMode::Normal,
            final(self).input_number@.len() == 0,
            final(self).pre_input_selected is None,
            final(self).marquee_reset(),
            final(self).selected == (if apply && old(self).input_number@.len() > 0 && 1
                <= digits_value(old(self).input_number@) <= old(self).spec_row_limit() {
                Some((digits_value(old(self).input_number@) - 1) as usize)
            } else {
                old(self).pre_input_selected
            }),
            final(self).categories@ == old(self).categories@,
            final(self).entries@ == old(self).entries@,
            final(self).current_category == old(self).current_category,
    {
        if apply && self.input_number.len() > 0 {
            let n = parse_digits(&self.input_number);
            let limit = self.row_limit();
            if n >= 1 && n <= limit {
                self.selected = Some(n - 1);
            } else {
                self.selected = self.pre_input_selected;
            }
        } else {
            self.selected = self.pre_input_selected;
        }
        self.input_mode = InputMode::Normal;
        self.input_number = Vec::new();
        self.pre_input_selected = None;
        self.marquee.reset();
    }

    /// What pressing "open" on the cursor does: with a backend key the
    /// summarization flow starts here, else the link is handed back for
    /// the external opener.  No cursor or no entry does nothing.
    pub fn open_selected(&mut self, has_backend_key: bool) -> (r: Option<String>)
        requires
            old(self).wf(),
        ensures
            final(self).wf(),
            ({
                let url = selected_url(*old(self));
                match url {
                    Some(u) => {
                        if has_backend_key {
                            &&& r is None
                            &&& final(self).summarizing
                            &&& final(self).summarize_url@ == u
                            &&& final(self).selected == old(self).selected
                        } else {
                            &&& r matches Some(link) && link@ == u
                            &&& *final(self) == *old(self)
                        }
                    },
                    None => r is None && *final(self) == *old(self),
                }
            }),
    {
        if self.categories.len() == 0 {
            return None;
        }
        match self.selected {
            Some(i) => {
                if i < self.entries[self.current_category].len() {
                    let url = self.entries[self.current_category][i].url.clone();
                    if has_backend_key {
                        self.summarizing = true;
                        self.summarize_url = url;
                        None
                    } else {
                        Some(url)
                    }
                } else {
                    None
                }
            },
            None => None,
        }
    }

    /// Advances the marquee unless nothing is selected or a numeric
    /// jump is being typed.
    pub fn marquee_tick(&mut self, current_tick: u64)
        requires
            old(self).wf(),
        ensures
            final(self).wf(),
            final(self).same_but_cursor(old(self)),
            final(self).selected == old(self).selected,
            final(self).marquee == (if old(self).selected is None || old(self).input_mode
                == InputMode::NumberJump {
                old(self).marquee
            } else {
                crate::marquee::spec_tick(old(self).marquee, current_tick)
            }),
    {
        if self.selected.is_none() || self.input_mode == InputMode::NumberJump {
            return ;
        }
        self.marquee.tick(current_tick);
    }

    /// Rows of summary text one modal page holds.
    pub open spec fn spec_modal_page(&self) -> int {
        let h = self.terminal_height * 8 / 10;
        if h >= 3 {
            h - 3
        } else {
            0
        }
    }

    /// Stores a finished summary: remembers the raw text, wraps it for
    /// the present width, opens the modal at the top, and clears the
    /// summarizing flag.
    pub fn set_summary(&mut self, summary: String)
        requires
            old(self).wf(),
        ensures
            final(self).wf(),
            final(self).show_modal,
            !final(self).summarizing,
            final(self).modal_scroll == 0,
            final(self).modal_raw_text@ == summary@,
            final(self).modal_wrapped_width == old(self).terminal_width,
            final(self).modal_text@.map_values(|l: String| l@) == spec_wrap_text(
                summary@,
                modal_content_width(old(self).terminal_width as int),
            ),
            final(self).selected == old(self).selected,
            final(self).entries@ == old(self).entries@,
            final(self).categories@ == old(self).categories@,
            final(self).current_category == old(self).current_category,
    {
        let content_width = modal_content_width_exec(self.terminal_width);
        self.modal_text = wrap_text_for_display(summary.as_str(), content_width);
        self.modal_raw_text = summary;
        self.modal_wrapped_width = self.terminal_width;
        self.modal_scroll = 0;
        self.show_modal = true;
        self.summarizing = false;
    }

    /// Re-wraps the modal when the terminal width changed since the
    /// last wrap, clamping the scroll to the new content length.
    pub fn rewrap_modal(&mut self)
        requires
            old(self).wf(),
        ensures
            final(self).wf(),
            final(self).terminal_width == old(self).terminal_width,
            final(self).terminal_height == old(self).terminal_height,
            final(self).categories@ == old(self).categories@,
            final(self).current_category == old(self).current_category,
            final(self).selected == old(self).selected,
            final(self).entries@ == old(self).entries@,
            final(self).show_modal == old(self).show_modal,
            final(self).show_help == old(self).show_help,
            final(self).summarizing == old(self).summarizing,
            final(self).marquee == old(self).marquee,
            final(self).input_mode == old(self).input_mode,
            final(self).input_number@ == old(self).input_number@,
            final(self).pre_input_selected == old(self).pre_input_selected,
            final(self).summarize_url == old(self).summarize_url,
            final(self).modal_raw_text == old(self).modal_raw_text,
            old(self).modal_wrapped_width == old(self).terminal_width || old(
                self,
            ).modal_raw_text@.len() == 0 ==> *final(self) == *old(self),
            old(self).modal_wrapped_width != old(self).terminal_width && old(
                self,
            ).modal_raw_text@.len() > 0 ==> {
                &&& final(self).modal_text@.map_values(|l: String| l@) == spec_wrap_text(
                    old(self).modal_raw_text@,
                    modal_content_width(old(self).terminal_width as int),
                )
                &&& final(self).modal_wrapped_width == old(self).terminal_width
                &&& final(self).modal_scroll == clamped_scroll(
                    old(self).modal_scroll as int,
                    final(self).modal_text@.len() as int,
                    old(self).spec_modal_page(),
                )
                &&& final(self).selected == old(self).selected
                &&& final(self).entries@ == old(self).entries@
            },
    {
        if self.modal_wrapped_width != self.terminal_width
            && !self.modal_raw_text.as_str().is_empty() {
            let content_width = modal_content_width_exec(self.terminal_width);
            self.modal_text = wrap_text_for_display(self.modal_raw_text.as_str(), content_width);
            self.modal_wrapped_width = self.terminal_width;
            let page = self.modal_page();
            let len = self.modal_text.len();
            let max_scroll = if len >= page {
                len - page
            } else {
                0
            };
            if self.modal_scroll > max_scroll {
                self.modal_scroll = max_scroll;
            }
        }
    }

    pub fn modal_page(&self) -> (r: usize)
        requires
            self.wf(),
        ensures
            r == self.spec_modal_page(),
    {
        let h = self.terminal_height * 8 / 10;
        if h >= 3 {
            h - 3
        } else {
            0
        }
    }

    /// Scrolls the modal one row down, holding at the end.
    pub fn modal_scroll_down(&mut self)
        requires
            old(self).wf(),
        ensures
            final(self).wf(),
            final(self).modal_scroll == (if old(self).modal_scroll + 1 <= max_modal_scroll(
                old(self).modal_text@.len() as int,
                old(self).spec_modal_page(),
            ) {
                old(self).modal_scroll + 1
            } else {
                old(self).modal_scroll as int
            }),
            final(self).modal_text@ == old(self).modal_text@,
            final(self).show_modal == old(self).show_modal,
    {
        let page = self.modal_page();
        let len = self.modal_text.len();
        let max_scroll = if len >= page {
            len - page
        } else {
            0
        };
        if self.modal_scroll < max_scroll {
            self.modal_scroll = self.modal_scroll + 1;
        }
    }

    /// Scrolls the modal one row up, holding at the top.
    pub fn modal_scroll_up(&mut self)
        requires
            old(self).wf(),
        ensures
            final(self).wf(),
            final(self).modal_scroll == (if old(self).modal_scroll > 0 {
                old(self).modal_scroll - 1
            } else {
                0int
            }),
            final(self).modal_text@ == old(self).modal_text@,
            final(self).show_modal == old(self).show_modal,
    {
        if self.modal_scroll > 0 {
            self.modal_scroll = self.modal_scroll - 1;
        }
    }

    /// Scrolls the modal one page down, clamping to the end.
    pub fn modal_page_down(&mut self)
        requires
            old(self).wf(),
        ensures
            final(self).wf(),
            final(self).modal_scroll == clamped_scroll(
                old(self).modal_scroll + old(self).spec_modal_page(),
                old(self).modal_text@.len() as int,
                old(self).spec_modal_page(),
            ),
            final(self).modal_text@ == old(self).modal_text@,
    {
        let page = self.modal_page();
        let len = self.modal_text.len();
        let max_scroll = if len >= page {
            len - page
        } else {
            0
        };
        let target = if self.modal_scroll <= usize::MAX - page {
            self.modal_scroll + page
        } else {
            usize::MAX
        };
        self.modal_scroll = if target <= max_scroll {
            target
        } else {
            max_scroll
        };
    }

    /// Scrolls the modal one page up, holding at the top.
    pub fn modal_page_up(&mut self)
        requires
            old(self).wf(),
        ensures
            final(self).wf(),
            final(self).modal_scroll == (if old(self).modal_scroll >= old(
                self,
            ).spec_modal_page() {
                old(self).modal_scroll - old(self).spec_modal_page()
            } else {
                0int
            }),
            final(self).modal_text@ == old(self).modal_text@,
    {
        let page = self.modal_page();
        if self.modal_scroll >= page {
            self.modal_scroll = self.modal_scroll - page;
        } else {
            self.modal_scroll = 0;
        }
    }

    /// Closes the modal and forgets its text and scroll.
    pub fn close_modal(&mut self)
        requires
            old(self).wf(),
        ensures
            final(self).wf(),
            !final(self).show_modal,
            final(self).modal_text@.len() == 0,
            final(self).modal_raw_text@.len() == 0,
            final(self).modal_wrapped_width == 0,
            final(self).modal_scroll == 0,
            final(self).selected == old(self).selected,
            final(self).entries@ == old(self).entries@,
    {
        self.show_modal = false;
        self.modal_text = Vec::new();
        self.modal_raw_text = String::new();
        self.modal_wrapped_width = 0;
        self.modal_scroll = 0;
    }

    /// Records the terminal extent the renderer saw this frame.
    pub fn set_terminal_size(&mut self, width: usize, height: usize)
        requires
            old(self).wf(),
            width <= 0xffff,
            height <= 0xffff,
        ensures
            final(self).wf(),
            final(self).terminal_width == width,
            final(self).terminal_height == height,
            final(self).entries@ == old(self).entries@,
            final(self).categories@ == old(self).categories@,
            final(self).selected == old(self).selected,
            final(self).current_category == old(self).current_category,
    {
        self.terminal_width = width;
        self.terminal_height = height;
    }
}

/// The link under the cursor, if the cursor sits on an entry.
pub open spec fn selected_url(a: App) -> Option<Seq<char>> {
    if a.categories@.len() == 0 {
        None
    } else {
        match a.selected {
            Some(i) => {
                if i < a.entries@[a.current_category as int]@.len() {
                    Some(a.entries@[a.current_category as int]@[i as int].url@)
                } else {
                    None
                }
            },
            None => None,
        }
    }
}

/// The number a digit string denotes.
pub open spec fn digits_value(ds: Seq<char>) -> int
    decreases ds.len(),
{
    if ds.len() == 0 {
        0
    } else {
        digits_value(ds.drop_last()) * 10 + (ds.last() as int - '0' as int)
    }
}

/// Parses the typed digits; at most three, so the value stays small.
pub fn parse_digits(ds: &Vec<char>) -> (r: usize)
    requires
        ds@.len() <= 3,
        forall|i: int| 0 <= i < ds@.len() ==> '0' <= #[trigger] ds@[i] <= '9',
    ensures
        r == digits_value(ds@),
{
    let mut r: usize = 0;
    let mut i: usize = 0;
    while i < ds.len()
        invariant
            i <= ds@.len(),
            ds@.len() <= 3,
            forall|j: int| 0 <= j < ds@.len() ==> '0' <= #[trigger] ds@[j] <= '9',
            r == digits_value(ds@.take(i as int)),
            r <= 999,
        decreases ds@.len() - i,
    {
        let d = (ds[i] as u32) - 48;
        proof {
            assert(ds@.take(i as int + 1).drop_last() =~= ds@.take(i as int));
            assert(ds@.take(i as int + 1).last() == ds@[i as int]);
            lemma_digits_bound(ds@.take(i as int));
        }
        r = r * 10 + (d as usize);
        i = i + 1;
    }
    proof {
        assert(ds@.take(ds@.len() as int) =~= ds@);
    }
    r
}

/// A digit string of length `n` denotes a value below ten to the `n`.
proof fn lemma_digits_bound(ds: Seq<char>)
    requires
        forall|i: int| 0 <= i < ds.len() ==> '0' <= #[trigger] ds[i] <= '9',
        ds.len() <= 3,
    ensures
        0 <= digits_value(ds),
        ds.len() <= 1 ==> digits_value(ds) <= 9,
        ds.len() <= 2 ==> digits_value(ds) <= 99,
        digits_value(ds) <= 999,
    decreases ds.len(),
{
    if ds.len() > 0 {
        assert(forall|i: int| 0 <= i < ds.drop_last().len() ==> ds.drop_last()[i] == ds[i]);
        lemma_digits_bound(ds.drop_last());
    }
}

/// Text columns inside the modal: the centered four-fifths region less
/// its borders, never below ten.
pub open spec fn modal_content_width(w: int) -> int {
    let mw = w * 8 / 10;
    let c = if mw >= 4 {
        mw - 4
    } else {
        0
    };
    if c >= 10 {
        c
    } else {
        10
    }
}

fn modal_content_width_exec(w: usize) -> (r: usize)
    requires
        w <= 0xffff,
    ensures
        r == modal_content_width(w as int),
{
    let mw = w * 8 / 10;
    let c = if mw >= 4 {
        mw - 4
    } else {
        0
    };
    if c >= 10 {
        c
    } else {
        10
    }
}

/// A scroll position clamped to the last page of `len` rows.
pub open spec fn max_modal_scroll(len: int, page: int) -> int {
    if len >= page {
        len - page
    } else {
        0
    }
}

/// Where a scroll request lands: at the target, or at the last page.
pub open spec fn clamped_scroll(target: int, len: int, page: int) -> int {
    let m = max_modal_scroll(len, page);
    if target <= m {
        target
    } else {
        m
    }
}

} // verus!
