//! What the mouse does.

use vstd::prelude::*;

use crate::input::{Mouse, MouseKind, Size};
use crate::keys::{ahead, back, step_ahead};
use crate::moves::{scroll_of, scroll_position, scroll_to, scrolled_to};
use crate::state::{current_changes, current_file, App, AppMode, AppView};

verus! {

/// How far one turn of the wheel goes.
pub const SCROLL_AMOUNT: usize = 3;

/// Something stands in front of the diff, so that the mouse does nothing.
pub open spec fn is_covered(a: AppView) -> bool {
    a.show_help_modal || a.show_rebase_modal
}

/// Whether something stands in front of the diff, so that the mouse does
/// nothing.
pub fn covered(app: &App) -> (r: bool)
    ensures
        r == is_covered(app@),
{
    app.show_help_modal || app.show_rebase_modal
}

/// A row inside the frame of the screen.
pub open spec fn in_frame(row: u16, height: u16) -> bool {
    0 < row < height - 1
}

/// A turn of the wheel over the list of files.
pub open spec fn wheel_in_list(a: AppView, down: bool) -> AppView {
    AppView {
        current_file_idx: if a.file_names.len() == 0 {
            a.current_file_idx
        } else if down {
            ahead(a.current_file_idx, SCROLL_AMOUNT, a.file_names.len())
        } else {
            back(a.current_file_idx, SCROLL_AMOUNT)
        },
        ..a
    }
}

/// A turn of the wheel over the content of a diff.
pub open spec fn wheel_in_content(a: AppView, down: bool) -> AppView {
    match current_file(a) {
        Some(file) => scrolled_to(
            a,
            if down {
                if scroll_of(a, file) + SCROLL_AMOUNT <= usize::MAX {
                    (scroll_of(a, file) + SCROLL_AMOUNT) as usize
                } else {
                    usize::MAX
                }
            } else {
                back(scroll_of(a, file), SCROLL_AMOUNT)
            },
        ),
        None => a,
    }
}

/// A turn of the wheel while changes are chosen.
pub open spec fn wheel_in_changes(a: AppView, down: bool) -> AppView {
    match current_changes(a) {
        Some(changes) => AppView {
            current_change_idx: if changes.len() == 0 {
                a.current_change_idx
            } else if down {
                ahead(a.current_change_idx, SCROLL_AMOUNT, changes.len())
            } else {
                back(a.current_change_idx, SCROLL_AMOUNT)
            },
            ..a
        },
        None => a,
    }
}

/// What the mouse does: its wheel moves what it stands over, inside the frame.
/// The list of files takes the first fifth of the width.
pub open spec fn mouse_step(a: AppView, mouse: Mouse, size: Size) -> AppView {
    let down = mouse.kind == MouseKind::ScrollDown;
    if is_covered(a) || mouse.kind == MouseKind::Other || !in_frame(mouse.row, size.height) {
        a
    } else if a.app_mode == AppMode::Rebase {
        wheel_in_changes(a, down)
    } else if mouse.column < size.width / 5 {
        wheel_in_list(a, down)
    } else {
        wheel_in_content(a, down)
    }
}

/// Takes in what the mouse did.
pub fn handle_mouse(app: &mut App, mouse: Mouse, size: Size)
    ensures
        final(app)@ == mouse_step(old(app)@, mouse, size),
{
    if covered(app) || mouse.kind == MouseKind::Other {
        return ;
    }
    if mouse.row == 0 || mouse.row >= size.height.saturating_sub(1) {
        return ;
    }
    let is_down: bool = mouse.kind == MouseKind::ScrollDown;
    match app.app_mode {
        AppMode::Diff => {
            let file_list_width: u16 = size.width / 5;
            if mouse.column < file_list_width {
                let len: usize = app.file_names.len();
                if len > 0 {
                    app.current_file_idx =
                    if is_down {
                        step_ahead(app.current_file_idx, SCROLL_AMOUNT, len)
                    } else {
                        app.current_file_idx.saturating_sub(SCROLL_AMOUNT)
                    };
                }
            } else {
                let scroll: usize = match app.current_file() {
                    Some(file) => scroll_position(app, file),
                    None => {
                        return ;
                    },
                };
                let new_scroll: usize = if is_down {
                    scroll.saturating_add(SCROLL_AMOUNT)
                } else {
                    scroll.saturating_sub(SCROLL_AMOUNT)
                };
                scroll_to(app, new_scroll);
            }
        },
        AppMode::Rebase => {
            let len: usize = match app.current_changes() {
                Some(changes) => changes.len(),
                None => 0,
            };
            if len > 0 {
                app.current_change_idx =
                if is_down {
                    step_ahead(app.current_change_idx, SCROLL_AMOUNT, len)
                } else {
                    app.current_change_idx.saturating_sub(SCROLL_AMOUNT)
                };
            }
        },
    }
}

} // verus!
