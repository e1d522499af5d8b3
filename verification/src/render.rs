//! Layout and drawing: what the input box asks of its host, and the runs
//! it wants printed on its one row.

use crate::edit_view::{scroll_offset, EditView};
use crate::text::{
    byte_len, clusters_of, display_width, lemma_boundary_in_slice, next_boundary, next_cluster,
    prefix_len, simple_prefix_length, slice, slice_of, str_width,
};
use vstd::prelude::*;
use vstd::string::*;
use vstd::utf8::*;

verus! {

/// One run to print on the row of the view.
#[derive(Clone, Copy, Debug, PartialEq, Eq, Structural)]
pub enum DrawOp {
    /// The content from byte `from` up to byte `to`, printed from `column` on.
    Text { column: usize, from: usize, to: usize },
    /// `count` times `*`, from `column` on.
    Stars { column: usize, count: usize },
    /// `count` times the marker of an empty cell, `_`, from `column` on.
    Blank { column: usize, count: usize },
}

/// The longest run of stars that stands for one cluster.
pub const MAX_SMALL_STARS: usize = 4;

/// A run of `*` as wide as a cluster of `length` columns, and of the longest
/// run for a cluster that is wider than that.
pub open spec fn small_stars(length: int) -> Seq<char> {
    Seq::new(
        if length < 0 {
            0
        } else if length < MAX_SMALL_STARS {
            length as nat
        } else {
            MAX_SMALL_STARS as nat
        },
        |i: int| '*',
    )
}

/// Returns a `&str` with `length` characters `*`, at most four of them.
/// Best used for single character replacement.
pub fn make_small_stars(length: usize) -> (r: &'static str)
    ensures
        r@ == small_stars(length as int),
{
    proof {
        reveal_strlit("");
        reveal_strlit("*");
        reveal_strlit("**");
        reveal_strlit("***");
        reveal_strlit("****");
    }
    let r = if length == 0 {
        ""
    } else if length == 1 {
        "*"
    } else if length == 2 {
        "**"
    } else if length == 3 {
        "***"
    } else {
        "****"
    };
    assert(r@ =~= small_stars(length as int));
    r
}

impl EditView {
    /// The runs for the content and the empty cells behind it. A content
    /// that is narrower than the viewport is printed whole, else what fits
    /// of it from the offset on. A secret content is printed as stars.
    pub open spec fn body_ops(&self) -> Seq<DrawOp> {
        let text = self.content@;
        let len = self.bytes().len() as int;
        let view = self.last_length as int;
        let width = display_width(text);
        if width < view {
            seq![
                if self.secret {
                    DrawOp::Stars { column: 0, count: width }
                } else {
                    DrawOp::Text { column: 0, from: 0, to: len as usize }
                },
                DrawOp::Blank { column: width, count: (view - width) as usize },
            ]
        } else {
            let end = self.offset + prefix_len(
                clusters_of(slice_of(text, self.offset as int, len)),
                view,
            );
            let shown = display_width(slice_of(text, self.offset as int, end));
            let first = if self.secret {
                DrawOp::Stars { column: 0, count: shown }
            } else {
                DrawOp::Text { column: 0, from: self.offset, to: end as usize }
            };
            if shown < view {
                seq![first, DrawOp::Blank { column: shown, count: (view - shown) as usize }]
            } else {
                seq![first]
            }
        }
    }

    /// The run for the cursor: the marker of an empty cell at the end of the
    /// content, else the cluster at the cursor, or stars of its width. It
    /// stands as many columns in as the content between offset and cursor
    /// is wide.
    pub open spec fn cursor_op(&self) -> DrawOp {
        let text = self.content@;
        let column = display_width(slice_of(text, self.offset as int, self.cursor as int));
        let at = next_cluster(text, self.cursor as int);
        if self.cursor == self.bytes().len() {
            DrawOp::Blank { column, count: 1 }
        } else if self.secret {
            DrawOp::Stars { column, count: small_stars(at.width as int).len() as usize }
        } else {
            DrawOp::Text { column, from: self.cursor, to: (self.cursor + at.len) as usize }
        }
    }

    /// What is printed: the content, and the cursor over it if the view has
    /// the focus.
    pub open spec fn frame(&self, focused: bool) -> Seq<DrawOp> {
        if focused {
            self.body_ops().push(self.cursor_op())
        } else {
            self.body_ops()
        }
    }

    /// The runs to print on a row of `width` columns, in the order in which
    /// they are printed. `width` is the width that `layout` was last given.
    /// A secret view prints no content.
    pub fn draw(&self, width: usize, focused: bool) -> (r: Vec<DrawOp>)
        requires
            self.wf(),
            width == self.last_length,
        ensures
            r@ == self.frame(focused),
            self.secret ==> forall|i: int| 0 <= i < r@.len() ==> !(#[trigger] r@[i] is Text),
    {
        let text = self.content.as_str();
        let total = byte_len(text);
        let ghost bytes = encode_utf8(text@);
        proof {
            encode_utf8_valid_utf8(text@);
            is_char_boundary_start_end_of_seq(bytes);
        }
        let mut ops: Vec<DrawOp> = Vec::new();
        let content_width = str_width(text);
        if content_width < self.last_length {
            if self.secret {
                ops.push(DrawOp::Stars { column: 0, count: content_width });
            } else {
                ops.push(DrawOp::Text { column: 0, from: 0, to: total });
            }
            ops.push(DrawOp::Blank { column: content_width, count: width - content_width });
        } else {
            let rest = slice(text, self.offset, total);
            let display_bytes = simple_prefix_length(rest, self.last_length);
            proof {
                lemma_boundary_in_slice(
                    bytes,
                    self.offset as int,
                    total as int,
                    self.offset + display_bytes,
                );
            }
            let end = self.offset + display_bytes;
            let shown = str_width(slice(text, self.offset, end));
            if self.secret {
                ops.push(DrawOp::Stars { column: 0, count: shown });
            } else {
                ops.push(DrawOp::Text { column: 0, from: self.offset, to: end });
            }
            if shown < self.last_length {
                ops.push(DrawOp::Blank { column: shown, count: self.last_length - shown });
            }
        }
        if focused {
            let column = str_width(slice(text, self.offset, self.cursor));
            let op = match next_boundary(text, self.cursor) {
                None => DrawOp::Blank { column, count: 1 },
                Some((end, selected_width)) => {
                    if self.secret {
                        let stars = make_small_stars(selected_width);
                        DrawOp::Stars { column, count: stars.unicode_len() }
                    } else {
                        DrawOp::Text { column, from: self.cursor, to: end }
                    }
                },
            };
            ops.push(op);
        }
        proof {
            assert(ops@ =~= self.frame(focused));
        }
        ops
    }

    /// Takes the width that the host gives to the view, and moves the window
    /// to suit it.
    pub fn layout(&mut self, width: usize)
        requires
            old(self).wf(),
        ensures
            final(self).wf(),
            final(self).offset == scroll_offset(
                old(self).content@,
                old(self).cursor as int,
                old(self).offset as int,
                width as int,
            ),
            *final(self) == (EditView {
                last_length: width,
                offset: final(self).offset,
                ..*old(self)
            }),
    {
        self.last_length = width;
        self.recompute_offset();
    }

    /// The size that the view asks for: its minimum length, on one row.
    pub fn get_min_size(&self) -> (r: (usize, usize))
        ensures
            r == (self.min_length, 1usize),
    {
        (self.min_length, 1)
    }

    /// Whether the view accepts the focus: an enabled view does.
    pub fn take_focus(&self) -> (r: bool)
        ensures
            r == self.enabled,
    {
        self.enabled
    }
}

} // verus!
