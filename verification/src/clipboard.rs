use vstd::prelude::*;
use crate::models::{ClipboardItem, ItemView, now_millis};
use crate::repository::{ClipboardRepository, add_outcome};
use crate::text::chars_of;

verus! {

/// Whether `c` is white space (Unicode's `White_Space`, as `char::is_whitespace`).
pub open spec fn is_whitespace_char(c: char) -> bool {
    ||| ('\u{9}' <= c && c <= '\u{D}')
    ||| c == ' '
    ||| c == '\u{85}'
    ||| c == '\u{A0}'
    ||| c == '\u{1680}'
    ||| ('\u{2000}' <= c && c <= '\u{200A}')
    ||| c == '\u{2028}'
    ||| c == '\u{2029}'
    ||| c == '\u{202F}'
    ||| c == '\u{205F}'
    ||| c == '\u{3000}'
}

/// Whether a text holds nothing but white space (its trimmed form is empty).
pub open spec fn is_blank(s: Seq<char>) -> bool {
    forall|i: int| 0 <= i < s.len() ==> is_whitespace_char(#[trigger] s[i])
}

/// Whether code point `n` is in Unicode's `White_Space` set: U+0009 to
/// U+000D, U+0020, U+0085, U+00A0, U+1680, U+2000 to U+200A, U+2028, U+2029,
/// U+202F, U+205F and U+3000.
pub open spec fn white_space_code_point(n: u32) -> bool {
    ||| (9 <= n && n <= 13)
    ||| n == 32
    ||| n == 133
    ||| n == 160
    ||| n == 5760
    ||| (8192 <= n && n <= 8202)
    ||| n == 8232
    ||| n == 8233
    ||| n == 8239
    ||| n == 8287
    ||| n == 12288
}

/// A character is white space exactly when its code point is in Unicode's
/// `White_Space` set; in particular no ASCII digit or letter is white space.
pub proof fn lemma_whitespace_code_points(c: char)
    ensures
        is_whitespace_char(c) <==> white_space_code_point(c as u32),
        ('0' <= c && c <= '9') ==> !is_whitespace_char(c),
        ('a' <= c && c <= 'z') ==> !is_whitespace_char(c),
        ('A' <= c && c <= 'Z') ==> !is_whitespace_char(c),
{
}

/// A text with a character outside white space (a digit or a letter, say)
/// is not blank: when it differs from the last text seen it is new, and is
/// recorded.
pub proof fn lemma_text_with_visible_char_is_new(last: Option<Seq<char>>, text: Seq<char>, i: int)
    requires
        0 <= i < text.len(),
        !white_space_code_point(text[i] as u32),
        last != Some(text),
    ensures
        !is_blank(text),
        is_new_text(last, text),
{
    lemma_whitespace_code_points(text[i]);
}

/// A blank text holds no ASCII digit and no ASCII letter.
pub proof fn lemma_blank_has_no_digit_or_letter(s: Seq<char>)
    requires
        is_blank(s),
    ensures
        forall|i: int|
            0 <= i < s.len() ==> !('0' <= #[trigger] s[i] && s[i] <= '9') && !('a' <= s[i] && s[i]
                <= 'z') && !('A' <= s[i] && s[i] <= 'Z'),
{
    assert forall|i: int| 0 <= i < s.len() implies !('0' <= #[trigger] s[i] && s[i] <= '9') && !(
    'a' <= s[i] && s[i] <= 'z') && !('A' <= s[i] && s[i] <= 'Z') by {
        lemma_whitespace_code_points(s[i]);
    }
}

fn is_whitespace(c: char) -> (res: bool)
    ensures
        res == is_whitespace_char(c),
{
    ('\u{9}' <= c && c <= '\u{D}') || c == ' ' || c == '\u{85}' || c == '\u{A0}' || c
        == '\u{1680}' || ('\u{2000}' <= c && c <= '\u{200A}') || c == '\u{2028}' || c == '\u{2029}'
        || c == '\u{202F}' || c == '\u{205F}' || c == '\u{3000}'
}

/// Whether a text holds nothing but white space.
pub fn is_blank_text(text: &str) -> (res: bool)
    ensures
        res == is_blank(text@),
{
    let chars = chars_of(text);
    for i in 0..chars.len()
        invariant
            chars@ == text@,
            forall|j: int| 0 <= j < i ==> is_whitespace_char(#[trigger] chars@[j]),
    {
        if !is_whitespace(chars[i]) {
            return false;
        }
    }
    true
}

/// Whether clipboard text `text` is new: it differs from the text seen last
/// and is not blank.
pub open spec fn is_new_text(last: Option<Seq<char>>, text: Seq<char>) -> bool {
    last != Some(text) && !is_blank(text)
}

/// The characters of an optional string.
pub open spec fn optional_view(s: Option<String>) -> Option<Seq<char>> {
    match s {
        Some(t) => Some(t@),
        None => None,
    }
}

/// Whether clipboard text `text` is to be recorded, given the text seen last.
pub fn should_capture(last: &Option<String>, text: &str) -> (res: bool)
    ensures
        res == is_new_text(optional_view(*last), text@),
{
    let same = match last {
        Some(l) => *l == text.to_owned(),
        None => false,
    };
    !same && !is_blank_text(text)
}

/// What a freshly captured entry holds: the text, of type `text`, unpinned,
/// with identifier `id` and equal creation and update times taken from the
/// clock (never before the epoch).
pub open spec fn is_captured_entry(x: ItemView, text: Seq<char>, id: Seq<char>) -> bool {
    &&& x.id == id
    &&& x.content == text
    &&& x.item_type == "text"@
    &&& !x.is_pinned
    &&& x.created_at == x.updated_at
    &&& x.created_at >= 0
    &&& x.tags is None
    &&& x.source is None
}

/// The entry that clipboard text `text` becomes when the clock reads `now`
/// milliseconds: the text, of type `text`, unpinned, with identifier `id`,
/// created and updated at `now`.
pub open spec fn captured_entry(text: Seq<char>, id: Seq<char>, now: i64) -> ItemView {
    ItemView {
        id,
        content: text,
        item_type: "text"@,
        created_at: now,
        updated_at: now,
        is_pinned: false,
        tags: None,
        source: None,
    }
}

/// Handles one read of the clipboard (`None` when it could not be read as
/// text), given the clock's reading `now` in milliseconds since the epoch
/// (`None` when the clock could not be read), with `id` as the identifier of
/// an entry it creates. Text that differs from the last text seen and is not
/// blank becomes the last text seen and an entry stamped `now` that is added
/// to the history; the entry is returned when the history took it. The one
/// failure is new text without a clock reading: then nothing changes.
pub fn record_clipboard_text(
    repo: &mut ClipboardRepository,
    last_content: &mut Option<String>,
    text: Option<String>,
    id: String,
    now: Option<i64>,
) -> (res: Result<Option<ClipboardItem>, ()>)
    ensures
        (res is Err) <==> (now is None && (text matches Some(t) && is_new_text(
            optional_view(*old(last_content)),
            t@,
        ))),
        match text {
            Some(t) if is_new_text(optional_view(*old(last_content)), t@) => match now {
                Some(n) => {
                    &&& optional_view(*final(last_content)) == Some(t@)
                    &&& (res matches Ok(r) && {
                        &&& add_outcome(
                            old(repo)@,
                            final(repo)@,
                            captured_entry(t@, id@, n),
                            r is Some,
                        )
                        &&& (r matches Some(e) ==> e@ == captured_entry(t@, id@, n))
                    })
                },
                None => {
                    &&& *final(last_content) == *old(last_content)
                    &&& final(repo)@ == old(repo)@
                },
            },
            _ => {
                &&& *final(last_content) == *old(last_content)
                &&& final(repo)@ == old(repo)@
                &&& (res matches Ok(r) && r is None)
            },
        },
{
    proof {
        reveal_strlit("text");
    }
    match text {
        Some(t) => {
            if should_capture(last_content, t.as_str()) {
                let n = match now {
                    Some(n) => n,
                    None => return Err(()),
                };
                let item = ClipboardItem::from_parts(id, t.clone(), "text", n);
                *last_content = Some(t);
                let copy = item.clone();
                let added = repo.add(copy);
                if added {
                    Ok(Some(item))
                } else {
                    Ok(None)
                }
            } else {
                Ok(None)
            }
        },
        None => Ok(None),
    }
}

/// Handles one read of the clipboard (`None` when it could not be read as
/// text), with `id` as the identifier of an entry it creates: new text
/// becomes the last text seen and a new entry that is added to the history;
/// the entry is returned when the history took it. When the clock cannot be
/// read no entry can be made: the result is an error and nothing changes.
pub fn check_clipboard(
    repo: &mut ClipboardRepository,
    last_content: &mut Option<String>,
    text: Option<String>,
    id: String,
) -> (res: Result<Option<ClipboardItem>, ()>)
    ensures
        match text {
            Some(t) if is_new_text(optional_view(*old(last_content)), t@) => match res {
                Ok(r) => {
                    &&& optional_view(*final(last_content)) == Some(t@)
                    &&& exists|x: ItemView|
                        {
                            &&& is_captured_entry(x, t@, id@)
                            &&& add_outcome(old(repo)@, final(repo)@, x, r is Some)
                            &&& (r matches Some(e) ==> e@ == x)
                        }
                },
                Err(_) => {
                    &&& *final(last_content) == *old(last_content)
                    &&& final(repo)@ == old(repo)@
                },
            },
            _ => {
                &&& *final(last_content) == *old(last_content)
                &&& final(repo)@ == old(repo)@
                &&& (res matches Ok(r) && r is None)
            },
        },
{
    let now = now_millis();
    let ghost tv = text;
    let ghost iv = id@;
    let res = record_clipboard_text(repo, last_content, text, id, now);
    proof {
        if let (Some(t), Some(n)) = (tv, now) {
            assert(is_captured_entry(captured_entry(t@, iv, n), t@, iv));
        }
    }
    res
}

/// The state of the loop that watches the clipboard.
pub struct ClipboardMonitor {
    pub running: bool,
    pub consecutive_errors: u32,
    pub last_content: Option<String>,
}

/// After this many failed reads in a row the monitor reports that it keeps failing.
pub const MAX_CONSECUTIVE_ERRORS: u32 = 5;

/// Seconds to wait before the next read after `errors` failed reads in a row.
pub open spec fn backoff_secs(errors: u32) -> u64 {
    if errors == 0 {
        1
    } else if errors == 1 {
        2
    } else if errors == 2 {
        5
    } else {
        10
    }
}

impl ClipboardMonitor {
    /// A running monitor that has seen no text and no failure.
    pub fn new() -> (res: Self)
        ensures
            res.running,
            res.consecutive_errors == 0,
            res.last_content is None,
    {
        ClipboardMonitor { running: true, consecutive_errors: 0, last_content: None }
    }

    /// Seconds to wait before the next read: the more failures in a row, the
    /// longer.
    pub fn sleep_secs(&self) -> (res: u64)
        ensures
            res == backoff_secs(self.consecutive_errors),
    {
        match self.consecutive_errors {
            0 => 1,
            1 => 2,
            2 => 5,
            _ => 10,
        }
    }

    /// Records the outcome of a read; returns whether the failures in a row
    /// have reached `MAX_CONSECUTIVE_ERRORS`.
    pub fn record_check(&mut self, succeeded: bool) -> (warn: bool)
        requires
            succeeded || old(self).consecutive_errors < u32::MAX,
        ensures
            final(self).running == old(self).running,
            final(self).last_content == old(self).last_content,
            succeeded ==> final(self).consecutive_errors == 0 && !warn,
            !succeeded ==> final(self).consecutive_errors == old(self).consecutive_errors + 1
                && warn == (final(self).consecutive_errors >= MAX_CONSECUTIVE_ERRORS),
    {
        if succeeded {
            self.consecutive_errors = 0;
            false
        } else {
            self.consecutive_errors = self.consecutive_errors + 1;
            self.consecutive_errors >= MAX_CONSECUTIVE_ERRORS
        }
    }
}

/// Stops the monitor: its loop ends before the next read.
pub fn stop_clipboard_monitor(monitor: &mut ClipboardMonitor)
    ensures
        !final(monitor).running,
        final(monitor).consecutive_errors == old(monitor).consecutive_errors,
        final(monitor).last_content == old(monitor).last_content,
{
    monitor.running = false;
}

} // verus!
