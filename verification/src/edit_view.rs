//! The input box: content, cursor, scroll window, and the transitions that
//! key events cause.

use crate::event::{Event, EventResult, Key, Notification};
use crate::text::{
    byte_len, clusters_of, display_width, lemma_boundary_by_byte, lemma_boundary_in_slice,
    lemma_suffix_count_longest, next_boundary, next_cluster, previous_boundary, previous_cluster,
    simple_suffix_length, slice, slice_of, start_of, str_width, suffix_count, suffix_len,
    width_between,
};
use std::rc::Rc;
use vstd::prelude::*;
use vstd::utf8::*;

verus! {

/// Input box where the user can enter and edit a single line of text.
pub struct EditView {
    /// Current content.
    pub content: Rc<String>,
    /// Cursor position in the content, in bytes.
    pub cursor: usize,
    /// Minimum layout length asked to the parent.
    pub min_length: usize,
    /// Number of bytes to skip at the beginning of the content, when the
    /// content is too long for the display.
    pub offset: usize,
    /// Last display length, to know the possible offset range.
    pub last_length: usize,
    /// Whether a handler waits for changes of the content.
    pub on_edit: bool,
    /// Whether a handler waits for the Enter key.
    pub on_submit: bool,
    /// When `true`, only `*` is printed instead of the true content.
    pub secret: bool,
    /// A disabled view cannot be selected.
    pub enabled: bool,
}

/// Calls `char::len_utf8`. Trusted: the result is the number of bytes of the
/// character's UTF-8 encoding, which is between 1 and 4.
#[verifier::external_body]
fn char_len(ch: char) -> (r: usize)
    ensures
        r == encode_utf8(seq![ch]).len(),
        1 <= r <= 4,
{
    ch.len_utf8()
}

/// Calls `Rc::make_mut`. Trusted: what it hands out holds the text that the
/// content held, and the content ends up holding whatever is written there.
/// Other holders of the old content keep the old text.
#[verifier::external_body]
fn make_mut(content: &mut Rc<String>) -> (r: &mut String)
    ensures
        r@ == old(content)@,
        final(content)@ == final(r)@,
{
    Rc::make_mut(content)
}

/// Calls `String::insert`. Trusted: the bytes of the character's encoding
/// now stand at byte `at`, between the bytes that were before and those
/// that were behind that position. The position must lie between two
/// characters, else `String::insert` panics.
#[verifier::external_body]
fn string_insert(text: &mut String, at: usize, ch: char)
    requires
        at <= encode_utf8(old(text)@).len(),
        is_char_boundary(encode_utf8(old(text)@), at as int),
    ensures
        encode_utf8(final(text)@) == bytes_inserted(
            encode_utf8(old(text)@),
            at as int,
            encode_utf8(seq![ch]),
        ),
{
    text.insert(at, ch);
}

/// Calls `String::drain` and drops what it drained. Trusted: the bytes from
/// `from` up to `to` are gone and the others stay in order. Both ends must
/// lie between two characters inside the string, else `String::drain`
/// panics.
#[verifier::external_body]
fn string_remove(text: &mut String, from: usize, to: usize)
    requires
        from <= to <= encode_utf8(old(text)@).len(),
        is_char_boundary(encode_utf8(old(text)@), from as int),
        is_char_boundary(encode_utf8(old(text)@), to as int),
    ensures
        encode_utf8(final(text)@) == bytes_removed(
            encode_utf8(old(text)@),
            from as int,
            to - from,
        ),
{
    text.drain(from..to);
}

/// `bytes` with `glyph` put in at byte `at`.
pub open spec fn bytes_inserted(bytes: Seq<u8>, at: int, glyph: Seq<u8>) -> Seq<u8> {
    bytes.subrange(0, at) + glyph + bytes.subrange(at, bytes.len() as int)
}

/// `bytes` without the `len` bytes that start at byte `at`.
pub open spec fn bytes_removed(bytes: Seq<u8>, at: int, len: int) -> Seq<u8> {
    bytes.subrange(0, at) + bytes.subrange(at + len, bytes.len() as int)
}

/// Putting bytes in at a position and taking as many out again there gives
/// back the bytes that were there before.
pub proof fn lemma_insert_remove_round_trip(bytes: Seq<u8>, at: int, glyph: Seq<u8>)
    requires
        0 <= at <= bytes.len(),
    ensures
        bytes_removed(bytes_inserted(bytes, at, glyph), at, glyph.len() as int) == bytes,
{
    assert(bytes_removed(bytes_inserted(bytes, at, glyph), at, glyph.len() as int) =~= bytes);
}

/// Inserting a character at the cursor, and then removing as many bytes as
/// it has at that place, gives back the content: a text whose bytes are
/// those that the two steps leave is the text from before.
pub proof fn lemma_insert_remove_restores_content(
    before: Seq<char>,
    cursor: int,
    ch: char,
    after: Seq<char>,
)
    requires
        0 <= cursor <= encode_utf8(before).len(),
        encode_utf8(after) == bytes_removed(
            bytes_inserted(encode_utf8(before), cursor, encode_utf8(seq![ch])),
            cursor,
            encode_utf8(seq![ch]).len() as int,
        ),
    ensures
        after == before,
{
    lemma_insert_remove_round_trip(encode_utf8(before), cursor, encode_utf8(seq![ch]));
    encode_utf8_decode_utf8(before);
    encode_utf8_decode_utf8(after);
}

/// When the cursor is not left of the window and the viewport has room for
/// what stands at the cursor, the clusters that stay visible in front of the
/// cursor leave that room: the cursor is inside the viewport.
pub proof fn lemma_cursor_stays_visible(text: Seq<char>, cursor: int, offset: int, width: int)
    requires
        offset <= cursor,
        cursor_width(text, cursor) <= width,
    ensures
        ({
            let c = clusters_of(slice_of(text, offset, cursor));
            let n = c.len() as int;
            let kept = suffix_count(c, n, available_width(text, cursor, width));
            &&& 0 <= kept <= n
            &&& snapped_offset(text, cursor, offset, width) == cursor - (start_of(c, n) - start_of(
                c,
                n - kept,
            ))
            &&& width_between(c, n - kept, n) + cursor_width(text, cursor) <= width
        }),
{
    let c = clusters_of(slice_of(text, offset, cursor));
    lemma_suffix_count_longest(c, c.len() as int, available_width(text, cursor, width));
}

/// After the window has moved, either no column is left unused, or the
/// window starts as far left as the content allows with one column kept for
/// the marker behind the content.
pub proof fn lemma_scroll_fills_viewport(text: Seq<char>, cursor: int, offset: int, width: int)
    ensures
        !has_dead_space(text, scroll_offset(text, cursor, offset, width), width) || scroll_offset(
            text,
            cursor,
            offset,
            width,
        ) == filled_offset(text, cursor, width),
{
}

/// The display width of what stands at the cursor: the grapheme cluster that
/// starts there, or one column for the marker at the end of the content.
pub open spec fn cursor_width(text: Seq<char>, cursor: int) -> int {
    if cursor == encode_utf8(text).len() {
        1
    } else {
        next_cluster(text, cursor).width as int
    }
}

/// The columns that are left for the content in front of the cursor.
pub open spec fn available_width(text: Seq<char>, cursor: int, width: int) -> int {
    if width >= cursor_width(text, cursor) {
        width - cursor_width(text, cursor)
    } else {
        0
    }
}

/// The first visible byte once the cursor is back in the window: the cursor
/// itself if it went left of the window, else the start of the longest run
/// of clusters between the old offset and the cursor that fits in front of
/// the cursor.
pub open spec fn snapped_offset(text: Seq<char>, cursor: int, offset: int, width: int) -> int {
    if cursor < offset {
        cursor
    } else {
        cursor - suffix_len(
            clusters_of(slice_of(text, offset, cursor)),
            available_width(text, cursor, width),
        )
    }
}

/// The window from `offset` on leaves columns unused.
pub open spec fn has_dead_space(text: Seq<char>, offset: int, width: int) -> bool {
    display_width(slice_of(text, offset, encode_utf8(text).len() as int)) < width
}

/// The first visible byte when the window would leave columns unused: the
/// start of the longest run of clusters at the end of the content that fits
/// with one column kept for the marker, and never behind the cursor.
pub open spec fn filled_offset(text: Seq<char>, cursor: int, width: int) -> int {
    let start = encode_utf8(text).len() - suffix_len(clusters_of(text), width - 1);
    if start > cursor {
        cursor
    } else {
        start
    }
}

/// The first visible byte for a content, a cursor, the offset before and a
/// viewport width.
pub open spec fn scroll_offset(text: Seq<char>, cursor: int, offset: int, width: int) -> int {
    let snapped = snapped_offset(text, cursor, offset, width);
    if has_dead_space(text, snapped, width) {
        filled_offset(text, cursor, width)
    } else {
        snapped
    }
}

impl Default for EditView {
    /// Creates a new, empty edit view.
    fn default() -> (r: Self)
        ensures
            r.wf(),
            r.is_fresh(),
    {
        EditView::new()
    }
}

impl EditView {
    /// The content as UTF-8 bytes: what the cursor and the offset count.
    pub open spec fn bytes(&self) -> Seq<u8> {
        encode_utf8(self.content@)
    }

    /// The offset is not behind the cursor, the cursor is inside the
    /// content, and both lie between two characters.
    pub open spec fn wf(&self) -> bool {
        &&& self.cursor_ok()
        &&& self.offset <= self.cursor
        &&& is_char_boundary(self.bytes(), self.offset as int)
    }

    /// The cursor is inside the content and lies between two characters.
    pub open spec fn cursor_ok(&self) -> bool {
        &&& self.cursor <= self.bytes().len()
        &&& is_char_boundary(self.bytes(), self.cursor as int)
    }

    /// An empty view as it is made: enabled, not secret, with no handler,
    /// asking for one column, and not laid out yet.
    pub open spec fn is_fresh(&self) -> bool {
        &&& self.content@ == Seq::<char>::empty()
        &&& self.cursor == 0
        &&& self.offset == 0
        &&& self.min_length == 1
        &&& self.last_length == 0
        &&& !self.on_edit
        &&& !self.on_submit
        &&& !self.secret
        &&& self.enabled
    }

    /// Creates a new, empty edit view.
    pub fn new() -> (r: Self)
        ensures
            r.wf(),
            r.is_fresh(),
    {
        let r = EditView {
            content: Rc::new(String::new()),
            cursor: 0,
            offset: 0,
            min_length: 1,
            last_length: 0,
            on_edit: false,
            on_submit: false,
            secret: false,
            enabled: true,
        };
        proof {
            encode_utf8_valid_utf8(r.content@);
            is_char_boundary_start_end_of_seq(r.bytes());
        }
        r
    }

    /// If `secret` is `true`, the content won't be displayed in clear.
    pub fn set_secret(&mut self, secret: bool)
        ensures
            *final(self) == (EditView { secret, ..*old(self) }),
    {
        self.secret = secret;
    }

    /// Hides the content of the view: only `*` will be shown.
    pub fn secret(self) -> (r: Self)
        ensures
            r == (EditView { secret: true, ..self }),
    {
        let mut r = self;
        r.set_secret(true);
        r
    }

    /// Disables this view.
    pub fn disable(&mut self)
        ensures
            *final(self) == (EditView { enabled: false, ..*old(self) }),
    {
        self.enabled = false;
    }

    /// Disables this view. Chainable variant.
    pub fn disabled(self) -> (r: Self)
        ensures
            r == (EditView { enabled: false, ..self }),
    {
        let mut r = self;
        r.disable();
        r
    }

    /// Re-enables this view.
    pub fn enable(&mut self)
        ensures
            *final(self) == (EditView { enabled: true, ..*old(self) }),
    {
        self.enabled = true;
    }

    /// Records that a handler is to be told whenever the content is
    /// modified, with the content and the cursor position.
    pub fn on_edit(self) -> (r: Self)
        ensures
            r == (EditView { on_edit: true, ..self }),
    {
        let mut r = self;
        r.on_edit = true;
        r
    }

    /// Records that a handler is to be told when Enter is pressed, with the
    /// content of the view.
    pub fn on_submit(self) -> (r: Self)
        ensures
            r == (EditView { on_submit: true, ..self }),
    {
        let mut r = self;
        r.on_submit = true;
        r
    }

    /// Enable or disable this view.
    pub fn set_enabled(&mut self, enabled: bool)
        ensures
            *final(self) == (EditView { enabled, ..*old(self) }),
    {
        self.enabled = enabled;
    }

    /// Returns `true` if this view is enabled.
    pub fn is_enabled(&self) -> (r: bool)
        ensures
            r == self.enabled,
    {
        self.enabled
    }

    /// Replaces the entire content of the view with the given one and shows
    /// it from its start. The cursor stays where it is if that is still a
    /// position between two characters of the new content, and goes to the
    /// end of the content if not.
    pub fn set_content(&mut self, content: &str)
        ensures
            final(self).wf(),
            final(self).content@ == content@,
            final(self).offset == 0,
            final(self).cursor == if is_char_boundary(encode_utf8(content@), old(self).cursor as int) {
                old(self).cursor as int
            } else {
                encode_utf8(content@).len() as int
            },
            final(self).min_length == old(self).min_length,
            final(self).last_length == old(self).last_length,
            final(self).on_edit == old(self).on_edit,
            final(self).on_submit == old(self).on_submit,
            final(self).secret == old(self).secret,
            final(self).enabled == old(self).enabled,
    {
        proof {
            encode_utf8_valid_utf8(content@);
            is_char_boundary_start_end_of_seq(encode_utf8(content@));
            reveal_with_fuel(is_char_boundary, 2);
        }
        self.offset = 0;
        self.content = Rc::new(content.to_owned());
        if !content.is_char_boundary(self.cursor) {
            self.cursor = byte_len(content);
        }
    }

    /// Get the current text.
    pub fn get_content(&self) -> (r: Rc<String>)
        ensures
            r@ == self.content@,
    {
        self.content.clone()
    }

    /// Sets the current content to the given value. Chainable variant.
    pub fn content(self, content: &str) -> (r: Self)
        ensures
            r.wf(),
            r.content@ == content@,
            r.offset == 0,
            r.cursor == if is_char_boundary(encode_utf8(content@), self.cursor as int) {
                self.cursor as int
            } else {
                encode_utf8(content@).len() as int
            },
            r.min_length == self.min_length,
            r.last_length == self.last_length,
            r.on_edit == self.on_edit,
            r.on_submit == self.on_submit,
            r.secret == self.secret,
            r.enabled == self.enabled,
    {
        let mut r = self;
        r.set_content(content);
        r
    }

    /// Sets the minimum length for this view. This applies to the layout,
    /// not the content.
    pub fn min_length(self, min_length: usize) -> (r: Self)
        ensures
            r == (EditView { min_length, ..self }),
    {
        let mut r = self;
        r.min_length = min_length;
        r
    }

    /// Insert `ch` at the current cursor position, and move the cursor
    /// behind it.
    pub fn insert(&mut self, ch: char)
        requires
            old(self).cursor_ok(),
        ensures
            final(self).cursor_ok(),
            old(self).wf() ==> final(self).wf(),
            final(self).bytes() == bytes_inserted(
                old(self).bytes(),
                old(self).cursor as int,
                encode_utf8(seq![ch]),
            ),
            is_char_boundary(final(self).bytes(), old(self).cursor as int),
            final(self).cursor == old(self).cursor + encode_utf8(seq![ch]).len(),
            final(self).offset == old(self).offset,
            final(self).min_length == old(self).min_length,
            final(self).last_length == old(self).last_length,
            final(self).on_edit == old(self).on_edit,
            final(self).on_submit == old(self).on_submit,
            final(self).secret == old(self).secret,
            final(self).enabled == old(self).enabled,
    {
        let ghost before = self.bytes();
        let ghost at = self.cursor as int;
        let text = make_mut(&mut self.content);
        string_insert(text, self.cursor, ch);
        let n = char_len(ch);
        let total = byte_len(self.content.as_str());
        proof {
            let glyph = encode_utf8(seq![ch]);
            let after = self.bytes();
            encode_utf8_valid_utf8(old(self).content@);
            encode_utf8_valid_utf8(self.content@);
            encode_utf8_valid_utf8(seq![ch]);
            lemma_boundary_by_byte(before, at);
            lemma_boundary_by_byte(glyph, 0);
            lemma_boundary_by_byte(after, at + n);
            lemma_boundary_by_byte(after, at);
            if old(self).wf() {
                lemma_boundary_by_byte(before, self.offset as int);
                lemma_boundary_by_byte(after, self.offset as int);
            }
        }
        self.cursor = self.cursor + n;
    }

    /// Remove `len` bytes at the current cursor position: the grapheme
    /// cluster that starts there.
    pub fn remove(&mut self, len: usize)
        requires
            old(self).cursor_ok(),
            old(self).cursor + len <= old(self).bytes().len(),
            is_char_boundary(old(self).bytes(), old(self).cursor + len),
        ensures
            final(self).cursor_ok(),
            old(self).wf() ==> final(self).wf(),
            final(self).bytes() == bytes_removed(
                old(self).bytes(),
                old(self).cursor as int,
                len as int,
            ),
            final(self).cursor == old(self).cursor,
            final(self).offset == old(self).offset,
            final(self).min_length == old(self).min_length,
            final(self).last_length == old(self).last_length,
            final(self).on_edit == old(self).on_edit,
            final(self).on_submit == old(self).on_submit,
            final(self).secret == old(self).secret,
            final(self).enabled == old(self).enabled,
    {
        let ghost before = self.bytes();
        let total = byte_len(self.content.as_str());
        let start = self.cursor;
        let end = self.cursor + len;
        let text = make_mut(&mut self.content);
        string_remove(text, start, end);
        proof {
            let after = self.bytes();
            encode_utf8_valid_utf8(old(self).content@);
            encode_utf8_valid_utf8(self.content@);
            lemma_boundary_by_byte(before, start as int);
            lemma_boundary_by_byte(before, end as int);
            lemma_boundary_by_byte(after, start as int);
            if old(self).wf() {
                lemma_boundary_by_byte(before, self.offset as int);
                lemma_boundary_by_byte(after, self.offset as int);
            }
        }
    }

    /// Whether the view handles `event`: a typed character, Home and End
    /// always; Left and Backspace unless the cursor is at the start; Right
    /// and Del unless it is at the end; Enter if a handler waits for it.
    pub open spec fn consumes(&self, event: Event) -> bool {
        match event {
            Event::Char(_) => true,
            Event::Key(Key::Home) | Event::Key(Key::End) => true,
            Event::Key(Key::Left) | Event::Key(Key::Backspace) => self.cursor > 0,
            Event::Key(Key::Right) | Event::Key(Key::Del) => self.cursor < self.bytes().len(),
            Event::Key(Key::Enter) => self.on_submit,
            _ => false,
        }
    }

    /// The cursor after `event`.
    pub open spec fn cursor_after(&self, event: Event) -> int {
        match event {
            Event::Char(ch) => self.cursor + encode_utf8(seq![ch]).len(),
            Event::Key(Key::Home) => 0,
            Event::Key(Key::End) => self.bytes().len() as int,
            Event::Key(Key::Left) | Event::Key(Key::Backspace) => self.cursor - previous_cluster(
                self.content@,
                self.cursor as int,
            ).len,
            Event::Key(Key::Right) => self.cursor + next_cluster(
                self.content@,
                self.cursor as int,
            ).len,
            _ => self.cursor as int,
        }
    }

    /// The content after `event`, as bytes.
    pub open spec fn bytes_after(&self, event: Event) -> Seq<u8> {
        match event {
            Event::Char(ch) => bytes_inserted(
                self.bytes(),
                self.cursor as int,
                encode_utf8(seq![ch]),
            ),
            Event::Key(Key::Backspace) => bytes_removed(
                self.bytes(),
                self.cursor_after(event),
                previous_cluster(self.content@, self.cursor as int).len as int,
            ),
            Event::Key(Key::Del) => bytes_removed(
                self.bytes(),
                self.cursor as int,
                next_cluster(self.content@, self.cursor as int).len as int,
            ),
            _ => self.bytes(),
        }
    }

    /// Moves the window so that the cursor is in it and no column stays
    /// unused that content could fill.
    pub fn recompute_offset(&mut self)
        requires
            old(self).cursor_ok(),
            old(self).offset <= old(self).cursor ==> is_char_boundary(
                old(self).bytes(),
                old(self).offset as int,
            ),
        ensures
            final(self).wf(),
            final(self).offset == scroll_offset(
                old(self).content@,
                old(self).cursor as int,
                old(self).offset as int,
                old(self).last_length as int,
            ),
            !has_dead_space(
                final(self).content@,
                final(self).offset as int,
                final(self).last_length as int,
            ) || final(self).offset == filled_offset(
                final(self).content@,
                final(self).cursor as int,
                final(self).last_length as int,
            ),
            *final(self) == (EditView { offset: final(self).offset, ..*old(self) }),
    {
        let content = self.content.clone();
        let text = content.as_str();
        let total = byte_len(text);
        let ghost bytes = encode_utf8(text@);
        proof {
            encode_utf8_valid_utf8(text@);
            is_char_boundary_start_end_of_seq(bytes);
        }
        if self.cursor < self.offset {
            self.offset = self.cursor;
        } else {
            let c_len = match next_boundary(text, self.cursor) {
                Some((_, width)) => width,
                None => 1,
            };
            let available = if self.last_length >= c_len {
                self.last_length - c_len
            } else {
                0
            };
            let shown = slice(text, self.offset, self.cursor);
            let suffix_length = simple_suffix_length(shown, available);
            proof {
                lemma_boundary_in_slice(
                    bytes,
                    self.offset as int,
                    self.cursor as int,
                    self.cursor - suffix_length,
                );
            }
            self.offset = self.cursor - suffix_length;
        }
        let rest = slice(text, self.offset, total);
        if str_width(rest) < self.last_length {
            let suffix_length = simple_suffix_length(text, self.last_length - 1);
            let start = total - suffix_length;
            self.offset = if start > self.cursor {
                self.cursor
            } else {
                start
            };
        }
    }

    /// Handles one event. An event that the view does not consume changes
    /// nothing. Enter, with a handler for it, changes nothing and asks for
    /// the handler to be told the content. Any other event edits the content
    /// or moves the cursor, then moves the window, and asks for the handler
    /// of edits, if there is one, to be told the new content and cursor.
    pub fn on_event(&mut self, event: Event) -> (r: EventResult)
        requires
            old(self).wf(),
        ensures
            final(self).wf(),
            !old(self).consumes(event) ==> r is Ignored && *final(self) == *old(self),
            old(self).consumes(event) && event == Event::Key(Key::Enter) ==> {
                &&& *final(self) == *old(self)
                &&& r matches EventResult::Consumed(Some(Notification::Submit { content }))
                &&& content@ == old(self).content@
            },
            old(self).consumes(event) && event != Event::Key(Key::Enter) ==> {
                &&& final(self).bytes() == old(self).bytes_after(event)
                &&& final(self).cursor == old(self).cursor_after(event)
                &&& final(self).offset == scroll_offset(
                    final(self).content@,
                    final(self).cursor as int,
                    old(self).offset as int,
                    old(self).last_length as int,
                )
                &&& final(self).min_length == old(self).min_length
                &&& final(self).last_length == old(self).last_length
                &&& final(self).on_edit == old(self).on_edit
                &&& final(self).on_submit == old(self).on_submit
                &&& final(self).secret == old(self).secret
                &&& final(self).enabled == old(self).enabled
                &&& r matches EventResult::Consumed(note)
                &&& old(self).on_edit ==> {
                    &&& note matches Some(Notification::Edit { content, cursor })
                    &&& content@ == final(self).content@
                    &&& cursor == final(self).cursor
                }
                &&& !old(self).on_edit ==> note is None
            },
    {
        match event {
            Event::Char(ch) => {
                self.insert(ch);
            },
            Event::Key(Key::Home) => {
                self.cursor = 0;
                proof {
                    encode_utf8_valid_utf8(self.content@);
                    is_char_boundary_start_end_of_seq(self.bytes());
                }
            },
            Event::Key(Key::End) => {
                self.cursor = byte_len(self.content.as_str());
                proof {
                    encode_utf8_valid_utf8(self.content@);
                    is_char_boundary_start_end_of_seq(self.bytes());
                }
            },
            Event::Key(Key::Left) => {
                match previous_boundary(self.content.as_str(), self.cursor) {
                    Some((start, _)) => {
                        self.cursor = start;
                    },
                    None => {
                        return EventResult::Ignored;
                    },
                }
            },
            Event::Key(Key::Right) => {
                match next_boundary(self.content.as_str(), self.cursor) {
                    Some((end, _)) => {
                        self.cursor = end;
                    },
                    None => {
                        return EventResult::Ignored;
                    },
                }
            },
            Event::Key(Key::Backspace) => {
                match previous_boundary(self.content.as_str(), self.cursor) {
                    Some((start, _)) => {
                        let len = self.cursor - start;
                        self.cursor = start;
                        self.remove(len);
                    },
                    None => {
                        return EventResult::Ignored;
                    },
                }
            },
            Event::Key(Key::Del) => {
                match next_boundary(self.content.as_str(), self.cursor) {
                    Some((end, _)) => {
                        self.remove(end - self.cursor);
                    },
                    None => {
                        return EventResult::Ignored;
                    },
                }
            },
            Event::Key(Key::Enter) => {
                if self.on_submit {
                    let content = self.content.clone();
                    return EventResult::Consumed(Some(Notification::Submit { content }));
                } else {
                    return EventResult::Ignored;
                }
            },
            _ => {
                return EventResult::Ignored;
            },
        }
        self.recompute_offset();
        let note = if self.on_edit {
            Some(Notification::Edit { content: self.content.clone(), cursor: self.cursor })
        } else {
            None
        };
        EventResult::Consumed(note)
    }
}

} // verus!
