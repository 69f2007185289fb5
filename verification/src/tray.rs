use vstd::prelude::*;
use crate::models::{ClipboardItem, ItemView, item_views};
use crate::text::{
    chars_from, chars_of, chars_upto, free_of, lemma_replace_all_absent, occurs_at, occurs_in,
    replace_all, replace_chars, string_from_chars,
};

verus! {

/// How many characters of an entry the tray menu shows before cutting it.
pub const PREVIEW_CHARS: usize = 35;

/// The start of an entry as the tray shows it: at most `PREVIEW_CHARS`
/// characters, followed by `...` when the entry is longer.
pub open spec fn preview_of(content: Seq<char>) -> Seq<char> {
    if content.len() > PREVIEW_CHARS {
        content.take(PREVIEW_CHARS as int) + "..."@
    } else {
        content
    }
}

/// The text of an entry's tray menu item: its preview on one line (line feeds
/// become spaces, carriage returns are dropped), marked with a pin when the
/// entry is pinned.
pub open spec fn tray_label(content: Seq<char>, is_pinned: bool) -> Seq<char> {
    let text = replace_all(replace_all(preview_of(content), "\n"@, " "@), "\r"@, ""@);
    if is_pinned {
        "\u{1F4CC} "@ + text
    } else {
        text
    }
}

/// The text of the tray menu item of an entry.
pub fn tray_item_label(content: &str, is_pinned: bool) -> (res: String)
    ensures
        res@ == tray_label(content@, is_pinned),
{
    proof {
        reveal_strlit("\n");
        reveal_strlit("\r");
    }
    let chars = chars_of(content);
    let preview = if chars.len() > PREVIEW_CHARS {
        let mut p = chars_upto(&chars, PREVIEW_CHARS);
        let mut dots = chars_of("...");
        p.append(&mut dots);
        p
    } else {
        chars
    };
    let one_line = replace_chars(&preview, &chars_of("\n"), &chars_of(" "));
    let text = replace_chars(&one_line, &chars_of("\r"), &chars_of(""));
    if is_pinned {
        let mut marked = chars_of("\u{1F4CC} ");
        let mut rest = text;
        marked.append(&mut rest);
        string_from_chars(&marked)
    } else {
        string_from_chars(&text)
    }
}

/// The prefix of the menu identifiers of history entries.
pub open spec fn clip_prefix() -> Seq<char> {
    "clip_"@
}

/// The identifier of the tray menu item of the entry with identifier `id`.
pub fn tray_menu_id(id: &str) -> (res: String)
    ensures
        res@ == clip_prefix() + id@,
{
    let mut res = "clip_".to_owned();
    res.append(id);
    res
}

/// What a click on a tray menu item asks for.
pub enum MenuAction {
    ShowPreferences,
    ClearHistory,
    Quit,
    /// Copy the entry with this identifier to the clipboard.
    CopyItem(String),
    Ignore,
}

/// The action of the tray menu item with identifier `id`.
pub fn menu_action(id: &str) -> (res: MenuAction)
    ensures
        (res is ShowPreferences) <==> id@ == "preferences"@,
        (res is ClearHistory) <==> id@ == "clear"@,
        (res is Quit) <==> id@ == "quit"@,
        (res is CopyItem) <==> (clip_prefix().is_prefix_of(id@) && id@ != "preferences"@ && id@
            != "clear"@ && id@ != "quit"@),
        (res matches MenuAction::CopyItem(item_id) ==> item_id@ == id@.skip(5)),
{
    proof {
        reveal_strlit("clip_");
        reveal_strlit("preferences");
        reveal_strlit("clear");
        reveal_strlit("quit");
        assert("preferences"@.len() == 11 && "clear"@.len() == 5 && "quit"@.len() == 4);
        assert("clip_"@.len() == 5);
        assert("preferences"@[0] == 'p' && "clear"@[0] == 'c' && "quit"@[0] == 'q');
        assert("clear"@[1] == 'l' && "clip_"@[1] == 'l' && "clear"@[2] == 'e' && "clip_"@[2] == 'i');
    }
    let key = id.to_owned();
    if key == "preferences".to_owned() {
        return MenuAction::ShowPreferences;
    }
    if key == "clear".to_owned() {
        return MenuAction::ClearHistory;
    }
    if key == "quit".to_owned() {
        return MenuAction::Quit;
    }
    let chars = chars_of(id);
    let prefix = chars_of("clip_");
    if prefix.len() <= chars.len() && occurs_at(&chars, 0, &prefix) {
        assert(chars@.subrange(0, 5) =~= chars@.take(5));
        let rest = chars_from(&chars, prefix.len());
        MenuAction::CopyItem(string_from_chars(&rest))
    } else {
        proof {
            if clip_prefix().is_prefix_of(id@) {
                assert(chars@.subrange(0, 5) =~= prefix@);
            }
        }
        MenuAction::Ignore
    }
}

/// One entry of the tray menu.
#[derive(Debug)]
pub enum MenuEntry {
    /// The heading above the history (not clickable).
    HistoryTitle,
    /// A history entry: its menu identifier and its text.
    HistoryItem(String, String),
    /// Shown instead of the history when it is empty (not clickable).
    NoHistory,
    Separator,
    Preferences,
    ClearHistory,
    Quit,
}

/// A tray menu entry with its strings taken as characters.
pub enum MenuEntryView {
    HistoryTitle,
    HistoryItem(Seq<char>, Seq<char>),
    NoHistory,
    Separator,
    Preferences,
    ClearHistory,
    Quit,
}

impl View for MenuEntry {
    type V = MenuEntryView;

    open spec fn view(&self) -> MenuEntryView {
        match self {
            MenuEntry::HistoryTitle => MenuEntryView::HistoryTitle,
            MenuEntry::HistoryItem(id, text) => MenuEntryView::HistoryItem(id@, text@),
            MenuEntry::NoHistory => MenuEntryView::NoHistory,
            MenuEntry::Separator => MenuEntryView::Separator,
            MenuEntry::Preferences => MenuEntryView::Preferences,
            MenuEntry::ClearHistory => MenuEntryView::ClearHistory,
            MenuEntry::Quit => MenuEntryView::Quit,
        }
    }
}

/// The tray menu item of a history entry.
pub open spec fn history_entry(x: ItemView) -> MenuEntryView {
    MenuEntryView::HistoryItem(clip_prefix() + x.id, tray_label(x.content, x.is_pinned))
}

/// The tray menu showing `items`: a heading, one item per entry and a
/// separator (or, with no entries, a note and a separator), then
/// preferences, a separator, clearing the history and quitting.
pub open spec fn menu_plan(items: Seq<ItemView>) -> Seq<MenuEntryView> {
    (if items.len() > 0 {
        seq![MenuEntryView::HistoryTitle] + items.map_values(|x: ItemView| history_entry(x))
            + seq![MenuEntryView::Separator]
    } else {
        seq![MenuEntryView::NoHistory, MenuEntryView::Separator]
    }) + seq![
        MenuEntryView::Preferences,
        MenuEntryView::Separator,
        MenuEntryView::ClearHistory,
        MenuEntryView::Quit,
    ]
}

/// The views of a list of menu entries.
pub open spec fn menu_views(v: Seq<MenuEntry>) -> Seq<MenuEntryView> {
    v.map_values(|e: MenuEntry| e@)
}

/// The entries of the tray menu that shows `items`.
pub fn tray_menu_entries(items: &Vec<ClipboardItem>) -> (res: Vec<MenuEntry>)
    ensures
        menu_views(res@) == menu_plan(item_views(items@)),
{
    let ghost vs = item_views(items@);
    let mut entries: Vec<MenuEntry> = Vec::new();
    if items.len() > 0 {
        entries.push(MenuEntry::HistoryTitle);
        for i in 0..items.len()
            invariant
                vs == item_views(items@),
                vs.len() == items@.len(),
                menu_views(entries@) == seq![MenuEntryView::HistoryTitle] + vs.take(
                    i as int,
                ).map_values(|x: ItemView| history_entry(x)),
        {
            let x = &items[i];
            let id = tray_menu_id(x.id.as_str());
            let text = tray_item_label(x.content.as_str(), x.is_pinned);
            let ghost before = entries@;
            let e = MenuEntry::HistoryItem(id, text);
            assert(e@ == history_entry(vs[i as int]));
            entries.push(e);
            assert(menu_views(entries@) =~= menu_views(before).push(e@));
            assert(vs.take(i + 1).map_values(|x: ItemView| history_entry(x)) =~= vs.take(
                i as int,
            ).map_values(|x: ItemView| history_entry(x)).push(history_entry(vs[i as int])));
            assert(menu_views(entries@) =~= seq![MenuEntryView::HistoryTitle] + vs.take(
                i + 1,
            ).map_values(|x: ItemView| history_entry(x)));
        }
        assert(vs.take(items.len() as int) =~= vs);
        entries.push(MenuEntry::Separator);
    } else {
        entries.push(MenuEntry::NoHistory);
        entries.push(MenuEntry::Separator);
    }
    entries.push(MenuEntry::Preferences);
    entries.push(MenuEntry::Separator);
    entries.push(MenuEntry::ClearHistory);
    entries.push(MenuEntry::Quit);
    assert(menu_views(entries@) =~= menu_plan(vs));
    entries
}

/// The tray menu shows every entry it is given, each once and in order. With
/// `n > 0` entries it has `n + 6` items: the heading; at place `k + 1` the
/// item of the `k`-th entry, whose identifier is `clip_` followed by the
/// entry's and whose text is the entry's tray label; then a separator,
/// preferences, a separator, clearing the history and quitting. With no
/// entries it is a note, a separator and the same four items.
pub proof fn lemma_menu_shows_every_entry(items: Seq<ItemView>)
    ensures
        items.len() > 0 ==> {
            let m = menu_plan(items);
            let n = items.len() as int;
            &&& m.len() == n + 6
            &&& m[0] == MenuEntryView::HistoryTitle
            &&& forall|k: int|
                0 <= k < n ==> #[trigger] m[k + 1] == MenuEntryView::HistoryItem(
                    "clip_"@ + items[k].id,
                    tray_label(items[k].content, items[k].is_pinned),
                )
            &&& m[n + 1] == MenuEntryView::Separator
            &&& m[n + 2] == MenuEntryView::Preferences
            &&& m[n + 3] == MenuEntryView::Separator
            &&& m[n + 4] == MenuEntryView::ClearHistory
            &&& m[n + 5] == MenuEntryView::Quit
        },
        items.len() == 0 ==> menu_plan(items) == seq![
            MenuEntryView::NoHistory,
            MenuEntryView::Separator,
            MenuEntryView::Preferences,
            MenuEntryView::Separator,
            MenuEntryView::ClearHistory,
            MenuEntryView::Quit,
        ],
{
    let m = menu_plan(items);
    if items.len() > 0 {
        let n = items.len() as int;
        let shown = items.map_values(|x: ItemView| history_entry(x));
        assert(m == seq![MenuEntryView::HistoryTitle] + shown + seq![MenuEntryView::Separator]
            + seq![
            MenuEntryView::Preferences,
            MenuEntryView::Separator,
            MenuEntryView::ClearHistory,
            MenuEntryView::Quit,
        ]);
        assert forall|k: int| 0 <= k < n implies #[trigger] m[k + 1] == MenuEntryView::HistoryItem(
            "clip_"@ + items[k].id,
            tray_label(items[k].content, items[k].is_pinned),
        ) by {
            assert(m[k + 1] == shown[k]);
        }
    } else {
        assert(m =~= seq![
            MenuEntryView::NoHistory,
            MenuEntryView::Separator,
            MenuEntryView::Preferences,
            MenuEntryView::Separator,
            MenuEntryView::ClearHistory,
            MenuEntryView::Quit,
        ]);
    }
}

/// A text without line breaks is shown whole when it has at most 35
/// characters, and as its first 35 characters followed by `...` when it is
/// longer; a pinned entry's text is preceded by the pin mark and a space.
pub proof fn lemma_tray_label_cuts_long_text(content: Seq<char>, is_pinned: bool)
    requires
        !content.contains('\n'),
        !content.contains('\r'),
    ensures
        tray_label(content, is_pinned) == (if is_pinned {
            "\u{1F4CC} "@
        } else {
            ""@
        }) + (if content.len() > 35 {
            content.take(35) + "..."@
        } else {
            content
        }),
{
    reveal_strlit("\n");
    reveal_strlit("\r");
    reveal_strlit("...");
    reveal_strlit("");
    let p = preview_of(content);
    assert(!p.contains('\n') && !p.contains('\r')) by {
        assert forall|i: int| 0 <= i < p.len() implies p[i] != '\n' && p[i] != '\r' by {
            if content.len() > PREVIEW_CHARS && i >= PREVIEW_CHARS {
                assert(p[i] == "..."@[i - PREVIEW_CHARS]);
            } else {
                assert(p[i] == content[i]);
                assert(content.contains(content[i]));
            }
        }
    }
    assert forall|c: char, t: Seq<char>| !t.contains(c) implies free_of(t, seq![c]) by {
        assert forall|i: int| !occurs_in(t, seq![c], i) by {
            if occurs_in(t, seq![c], i) {
                assert(t.subrange(i, i + 1)[0] == t[i]);
                assert(t.contains(t[i]));
            }
        }
    }
    assert("\n"@ =~= seq!['\n']);
    assert("\r"@ =~= seq!['\r']);
    lemma_replace_all_absent(p, "\n"@, " "@);
    lemma_replace_all_absent(p, "\r"@, ""@);
    assert(""@ + p =~= p);
}

/// Replacing a pattern by something no longer never makes a text longer.
pub proof fn lemma_replace_all_not_longer(s: Seq<char>, from: Seq<char>, to: Seq<char>)
    requires
        to.len() <= from.len(),
    ensures
        replace_all(s, from, to).len() <= s.len(),
    decreases s.len(),
{
    if from.len() == 0 || s.len() < from.len() {
    } else if s.take(from.len() as int) == from {
        lemma_replace_all_not_longer(s.skip(from.len() as int), from, to);
    } else {
        lemma_replace_all_not_longer(s.drop_first(), from, to);
    }
}

/// Replacing a single character `c` by text without `c`, in a text in which
/// `d` occurs only where `c` does or not at all, leaves neither `c` nor `d`.
pub proof fn lemma_replace_char_removes(s: Seq<char>, c: char, to: Seq<char>, d: char)
    requires
        !to.contains(c),
        !to.contains(d),
        forall|i: int| 0 <= i < s.len() && s[i] == d ==> s[i] == c,
    ensures
        !replace_all(s, seq![c], to).contains(c),
        !replace_all(s, seq![c], to).contains(d),
    decreases s.len(),
{
    let r = replace_all(s, seq![c], to);
    if s.len() == 0 {
        assert(r.len() == 0);
    } else if s.take(1) == seq![c] {
        let rest = s.skip(1);
        assert forall|i: int| 0 <= i < rest.len() && rest[i] == d implies rest[i] == c by {
            assert(rest[i] == s[i + 1]);
        }
        lemma_replace_char_removes(rest, c, to, d);
        let t = replace_all(rest, seq![c], to);
        assert(r == to + t);
        assert forall|i: int| 0 <= i < r.len() implies r[i] != c && r[i] != d by {
            if i < to.len() {
                assert(r[i] == to[i]);
            } else {
                assert(r[i] == t[i - to.len()]);
            }
        }
    } else {
        let rest = s.drop_first();
        assert(s.take(1)[0] == s[0]);
        assert(s[0] != c) by {
            if s[0] == c {
                assert(s.take(1) =~= seq![c]);
            }
        }
        assert forall|i: int| 0 <= i < rest.len() && rest[i] == d implies rest[i] == c by {
            assert(rest[i] == s[i + 1]);
        }
        lemma_replace_char_removes(rest, c, to, d);
        let t = replace_all(rest, seq![c], to);
        assert(r == seq![s[0]] + t);
        assert forall|i: int| 0 <= i < r.len() implies r[i] != c && r[i] != d by {
            if i > 0 {
                assert(r[i] == t[i - 1]);
            }
        }
    }
}

/// A tray label holds no line break, and is never longer than the preview
/// (`PREVIEW_CHARS` characters and `...`) plus the pin mark.
pub proof fn lemma_tray_label_one_line(content: Seq<char>, is_pinned: bool)
    ensures
        !tray_label(content, is_pinned).contains('\n'),
        !tray_label(content, is_pinned).contains('\r'),
        tray_label(content, is_pinned).len() <= PREVIEW_CHARS + 5,
{
    reveal_strlit("\n");
    reveal_strlit("\r");
    reveal_strlit(" ");
    reveal_strlit("");
    reveal_strlit("...");
    reveal_strlit("\u{1F4CC} ");
    let p = preview_of(content);
    assert("\n"@ =~= seq!['\n']);
    assert("\r"@ =~= seq!['\r']);
    assert(!" "@.contains('\n') && !" "@.contains('\r')) by {
        assert(" "@[0] == ' ');
    }
    assert(!""@.contains('\n') && !""@.contains('\r'));
    lemma_replace_char_removes(p, '\n', " "@, '\n');
    let a = replace_all(p, "\n"@, " "@);
    assert forall|i: int| 0 <= i < a.len() && a[i] == '\n' implies a[i] == '\r' by {
        assert(a.contains(a[i]));
    }
    lemma_replace_char_removes(a, '\r', ""@, '\n');
    lemma_replace_all_not_longer(p, "\n"@, " "@);
    lemma_replace_all_not_longer(a, "\r"@, ""@);
    let text = replace_all(a, "\r"@, ""@);
    if is_pinned {
        let mark = "\u{1F4CC} "@;
        assert(mark.len() == 2);
        assert(!mark.contains('\n') && !mark.contains('\r')) by {
            assert(mark[0] == '\u{1F4CC}' && mark[1] == ' ');
        }
        let l = mark + text;
        assert forall|i: int| 0 <= i < l.len() implies l[i] != '\n' && l[i] != '\r' by {
            if i < 2 {
                assert(l[i] == mark[i]);
            } else {
                assert(l[i] == text[i - 2]);
                assert(text.contains(text[i - 2]));
            }
        }
    }
}

} // verus!
