use vstd::prelude::*;
use crate::models::{ClipboardItem, ItemView, Platform, Settings, item_views};
use crate::text::{chars_of, string_from_chars};

verus! {

// ------------------------------------------------------------------
// Ordering by recency
// ------------------------------------------------------------------

/// Places `x` after every leading entry that is at least as recent as it.
pub open spec fn insert_by_recency(sorted: Seq<ItemView>, x: ItemView) -> Seq<ItemView>
    decreases sorted.len(),
{
    if sorted.len() == 0 {
        seq![x]
    } else if sorted[0].created_at >= x.created_at {
        seq![sorted[0]] + insert_by_recency(sorted.drop_first(), x)
    } else {
        seq![x] + sorted
    }
}

/// The entries from newest to oldest by `created_at`; entries created at the
/// same instant keep the order they had (a stable sort).
pub open spec fn by_recency(s: Seq<ItemView>) -> Seq<ItemView>
    decreases s.len(),
{
    if s.len() == 0 {
        s
    } else {
        insert_by_recency(by_recency(s.drop_last()), s.last())
    }
}

/// The pinned entries, in their order.
pub open spec fn pinned_of(s: Seq<ItemView>) -> Seq<ItemView> {
    s.filter(|x: ItemView| x.is_pinned)
}

/// The entries that are not pinned, in their order.
pub open spec fn unpinned_of(s: Seq<ItemView>) -> Seq<ItemView> {
    s.filter(|x: ItemView| !x.is_pinned)
}

/// How many unpinned entries survive a truncation to `max` entries when
/// `pinned` entries are pinned (never below zero).
pub open spec fn unpinned_room(max: nat, pinned: nat) -> nat {
    if pinned >= max { 0 } else { (max - pinned) as nat }
}

/// The history cut down to at most `max` entries: a history that fits is
/// left as it is; otherwise every pinned entry stays, in its order, followed
/// by the newest unpinned entries that still fit.
pub open spec fn trimmed(s: Seq<ItemView>, max: nat) -> Seq<ItemView> {
    if s.len() <= max {
        s
    } else {
        let pinned = pinned_of(s);
        let rest = by_recency(unpinned_of(s));
        pinned + rest.take(unpinned_room(max, pinned.len()) as int)
    }
}

/// `insert_by_recency` puts `x` at the first position whose entry is older than `x`.
pub proof fn lemma_insert_by_recency_at(s: Seq<ItemView>, x: ItemView, p: int)
    requires
        0 <= p <= s.len(),
        forall|j: int| 0 <= j < p ==> s[j].created_at >= x.created_at,
        p < s.len() ==> s[p].created_at < x.created_at,
    ensures
        insert_by_recency(s, x) == s.insert(p, x),
    decreases s.len(),
{
    if s.len() == 0 {
        assert(s.insert(p, x) =~= seq![x]);
    } else if s[0].created_at >= x.created_at {
        lemma_insert_by_recency_at(s.drop_first(), x, p - 1);
        assert(seq![s[0]] + s.drop_first().insert(p - 1, x) =~= s.insert(p, x));
    } else {
        assert(seq![x] + s =~= s.insert(p, x));
    }
}

/// Sorts entries from newest to oldest by `created_at`, keeping the relative
/// order of entries created at the same instant.
pub fn sort_by_recency(v: &Vec<ClipboardItem>) -> (res: Vec<ClipboardItem>)
    ensures
        item_views(res@) == by_recency(item_views(v@)),
{
    let mut res: Vec<ClipboardItem> = Vec::new();
    let ghost vs = item_views(v@);
    for i in 0..v.len()
        invariant
            vs == item_views(v@),
            vs.len() == v@.len(),
            item_views(res@) == by_recency(vs.take(i as int)),
    {
        let x = v[i].clone();
        let mut p: usize = 0;
        while p < res.len() && res[p].created_at >= x.created_at
            invariant
                p <= res@.len(),
                forall|j: int| 0 <= j < p ==> res@[j].created_at >= x.created_at,
            decreases res@.len() - p,
        {
            p = p + 1;
        }
        proof {
            let rv = item_views(res@);
            assert(vs.take(i + 1).drop_last() =~= vs.take(i as int));
            assert(vs.take(i + 1).last() == x@);
            lemma_insert_by_recency_at(rv, x@, p as int);
        }
        let ghost before = res@;
        res.insert(p, x);
        assert(item_views(res@) =~= item_views(before).insert(p as int, x@));
    }
    assert(vs.take(v.len() as int) =~= vs);
    res
}

/// Copies the pinned and the unpinned entries apart, each in their order.
pub fn split_pinned(items: &Vec<ClipboardItem>) -> (res: (Vec<ClipboardItem>, Vec<ClipboardItem>))
    ensures
        item_views(res.0@) == pinned_of(item_views(items@)),
        item_views(res.1@) == unpinned_of(item_views(items@)),
{
    let ghost vs = item_views(items@);
    let mut pinned: Vec<ClipboardItem> = Vec::new();
    let mut rest: Vec<ClipboardItem> = Vec::new();
    for i in 0..items.len()
        invariant
            vs == item_views(items@),
            vs.len() == items@.len(),
            item_views(pinned@) == pinned_of(vs.take(i as int)),
            item_views(rest@) == unpinned_of(vs.take(i as int)),
    {
        proof {
            reveal(Seq::filter);
            assert(vs.take(i + 1).drop_last() =~= vs.take(i as int));
        }
        let x = items[i].clone();
        if x.is_pinned {
            let ghost before = pinned@;
            pinned.push(x);
            assert(item_views(pinned@) =~= item_views(before).push(x@));
        } else {
            let ghost before = rest@;
            rest.push(x);
            assert(item_views(rest@) =~= item_views(before).push(x@));
        }
    }
    assert(vs.take(items.len() as int) =~= vs);
    (pinned, rest)
}

/// Cuts the history down to `max_items` entries, keeping every pinned entry
/// and then the newest unpinned ones.
pub fn enforce_max_items(items: &mut Vec<ClipboardItem>, max_items: u32)
    ensures
        item_views(final(items)@) == trimmed(item_views(old(items)@), max_items as nat),
{
    let max = max_items as usize;
    if items.len() <= max {
        return;
    }
    let ghost vs = item_views(items@);
    let (mut pinned, rest) = split_pinned(items);
    let mut sorted = sort_by_recency(&rest);
    let keep = max.saturating_sub(pinned.len());
    proof {
        lemma_by_recency_len(unpinned_of(vs));
        lemma_filter_split_len(vs);
    }
    let ghost before = sorted@;
    sorted.truncate(keep);
    assert(item_views(sorted@) =~= item_views(before).take(keep as int));
    let ghost pv = pinned@;
    let ghost sv = sorted@;
    pinned.append(&mut sorted);
    assert(item_views(pinned@) =~= item_views(pv) + item_views(sv));
    *items = pinned;
}

/// Sorting keeps the number of entries.
pub proof fn lemma_by_recency_len(s: Seq<ItemView>)
    ensures
        by_recency(s).len() == s.len(),
    decreases s.len(),
{
    if s.len() > 0 {
        lemma_by_recency_len(s.drop_last());
        lemma_insert_by_recency_len(by_recency(s.drop_last()), s.last());
    }
}

/// Inserting adds one entry.
pub proof fn lemma_insert_by_recency_len(s: Seq<ItemView>, x: ItemView)
    ensures
        insert_by_recency(s, x).len() == s.len() + 1,
    decreases s.len(),
{
    if s.len() > 0 && s[0].created_at >= x.created_at {
        lemma_insert_by_recency_len(s.drop_first(), x);
    }
}

/// Every entry is either pinned or not.
pub proof fn lemma_filter_split_len(s: Seq<ItemView>)
    ensures
        pinned_of(s).len() + unpinned_of(s).len() == s.len(),
    decreases s.len(),
{
    reveal(Seq::filter);
    if s.len() > 0 {
        lemma_filter_split_len(s.drop_last());
    }
}

/// What a stored history gives when it is loaded with the bound `max`:
/// nothing stored (or nothing readable) gives an empty history.
pub open spec fn loaded(stored: Option<Seq<ItemView>>, max: nat) -> Seq<ItemView> {
    match stored {
        Some(s) => trimmed(s, max),
        None => Seq::empty(),
    }
}

/// The history held by a data file, given what was read and parsed from it
/// (`None` where the file is missing or unreadable): cut down to `max_items`.
pub fn load_clipboard_data(stored: Option<Vec<ClipboardItem>>, max_items: u32) -> (res: Vec<
    ClipboardItem,
>)
    ensures
        item_views(res@) == loaded(
            match stored {
                Some(v) => Some(item_views(v@)),
                None => None,
            },
            max_items as nat,
        ),
{
    match stored {
        Some(mut items) => {
            enforce_max_items(&mut items, max_items);
            items
        },
        None => {
            let res: Vec<ClipboardItem> = Vec::new();
            assert(item_views(res@) =~= Seq::<ItemView>::empty());
            res
        },
    }
}

/// Loading what a truncation to `max` produced, with the same bound, gives it
/// back unchanged.
pub proof fn lemma_reload_after_save(s: Seq<ItemView>, max: nat)
    ensures
        loaded(Some(trimmed(s, max)), max) == trimmed(s, max),
{
    lemma_trimmed_idempotent(s, max);
}

// ------------------------------------------------------------------
// Paths
// ------------------------------------------------------------------

/// Whether `c` separates the components of a path on `platform`.
pub open spec fn is_separator(c: char, platform: Platform) -> bool {
    c == '/' || (platform == Platform::Windows && c == '\\')
}

/// Whether `c` is an ASCII letter.
pub open spec fn is_ascii_letter(c: char) -> bool {
    ('a' <= c && c <= 'z') || ('A' <= c && c <= 'Z')
}

/// Whether `dir` is nothing but a Windows drive: `C:`, or its verbatim form
/// `\\?\C:`.
pub open spec fn is_bare_drive(dir: Seq<char>) -> bool {
    ||| (dir.len() == 2 && is_ascii_letter(dir[0]) && dir[1] == ':')
    ||| (dir.len() == 6 && dir[0] == '\\' && dir[1] == '\\' && dir[2] == '?' && dir[3] == '\\'
        && is_ascii_letter(dir[4]) && dir[5] == ':')
}

/// The path of the entry `name` of directory `dir` (as `Path::join` builds
/// it for a relative `name`): a separator goes between them unless `dir` is
/// empty, already ends with one, or is a bare drive on Windows (`C:` joined
/// with `x` is the drive-relative `C:x`).
pub open spec fn joined_path(dir: Seq<char>, name: Seq<char>, platform: Platform) -> Seq<char> {
    if dir.len() == 0 || is_separator(dir.last(), platform) || (platform == Platform::Windows
        && is_bare_drive(dir)) {
        dir + name
    } else if platform == Platform::Windows {
        dir + seq!['\\'] + name
    } else {
        dir + seq!['/'] + name
    }
}

fn is_ascii_letter_char(c: char) -> (res: bool)
    ensures
        res == is_ascii_letter(c),
{
    ('a' <= c && c <= 'z') || ('A' <= c && c <= 'Z')
}

/// Whether the characters `d` are nothing but a Windows drive.
fn is_bare_drive_chars(d: &Vec<char>) -> (res: bool)
    ensures
        res == is_bare_drive(d@),
{
    let n = d.len();
    if n == 2 {
        is_ascii_letter_char(d[0]) && d[1] == ':'
    } else if n == 6 {
        d[0] == '\\' && d[1] == '\\' && d[2] == '?' && d[3] == '\\' && is_ascii_letter_char(d[4])
            && d[5] == ':'
    } else {
        false
    }
}

/// The path of the entry `name` of directory `dir`.
pub fn join_path(dir: &str, name: &str, platform: Platform) -> (res: String)
    ensures
        res@ == joined_path(dir@, name@, platform),
{
    let mut chars = chars_of(dir);
    let n = chars.len();
    if n > 0 {
        let last = chars[n - 1];
        let sep = last == '/' || (platform == Platform::Windows && last == '\\');
        let drive = platform == Platform::Windows && is_bare_drive_chars(&chars);
        if !sep && !drive {
            if platform == Platform::Windows {
                chars.push('\\');
            } else {
                chars.push('/');
            }
        }
    }
    let mut tail = chars_of(name);
    chars.append(&mut tail);
    let res = string_from_chars(&chars);
    assert(res@ =~= joined_path(dir@, name@, platform));
    res
}

/// The path of the file that holds the clipboard history.
pub fn get_data_file_path(data_dir: &str, platform: Platform) -> (res: String)
    ensures
        res@ == joined_path(data_dir@, "clipboard_data.json"@, platform),
{
    join_path(data_dir, "clipboard_data.json", platform)
}

/// The path of the file that holds the settings.
pub fn get_settings_file_path(data_dir: &str, platform: Platform) -> (res: String)
    ensures
        res@ == joined_path(data_dir@, "settings.json"@, platform),
{
    join_path(data_dir, "settings.json", platform)
}

/// The identifier under which earlier releases kept their data.
pub open spec fn old_app_identifier() -> Seq<char> {
    "com.pastoid.app"@
}

/// Where the user's data directory is taken to be when it is unknown.
pub open spec fn fallback_data_dir(platform: Platform) -> Seq<char> {
    match platform {
        Platform::MacOs => "~/Library/Application Support"@,
        Platform::Windows => "%APPDATA%"@,
        Platform::Linux => "~/.local/share"@,
    }
}

/// The directory where earlier releases kept their data: the entry named
/// by the old identifier in the user's data directory (`None` when it is
/// unknown), which is where those releases' application data directory was.
pub open spec fn legacy_dir(base: Option<Seq<char>>, platform: Platform) -> Seq<char> {
    joined_path(
        match base {
            Some(b) => b,
            None => fallback_data_dir(platform),
        },
        old_app_identifier(),
        platform,
    )
}

/// The directory where earlier releases kept their data.
pub fn legacy_data_dir(base: Option<String>, platform: Platform) -> (res: String)
    ensures
        res@ == legacy_dir(
            match base {
                Some(b) => Some(b@),
                None => None,
            },
            platform,
        ),
{
    let root = match (base, platform) {
        (Some(b), _) => b,
        (None, Platform::MacOs) => "~/Library/Application Support".to_owned(),
        (None, Platform::Windows) => "%APPDATA%".to_owned(),
        (None, Platform::Linux) => "~/.local/share".to_owned(),
    };
    join_path(root.as_str(), "com.pastoid.app", platform)
}

/// The old data directory is the user's data directory `b`, a separator and
/// `com.pastoid.app`: a backslash on Windows and a slash elsewhere, left out
/// only where `b` is empty, already ends with a separator (`/`, or on
/// Windows also `\`) or is a bare Windows drive. So on Windows
/// `C:\Users\u\AppData\Roaming` gives
/// `C:\Users\u\AppData\Roaming\com.pastoid.app`.
pub proof fn lemma_legacy_dir_under_data_dir(b: Seq<char>, platform: Platform)
    ensures
        ({
            let sep = if platform == Platform::Windows {
                '\\'
            } else {
                '/'
            };
            let ends_open = b.len() == 0 || b.last() == '/' || (platform == Platform::Windows
                && (b.last() == '\\' || is_bare_drive(b)));
            &&& !ends_open ==> legacy_dir(Some(b), platform) == b + seq![sep]
                + "com.pastoid.app"@
            &&& ends_open ==> legacy_dir(Some(b), platform) == b + "com.pastoid.app"@
        }),
{
}

// ------------------------------------------------------------------
// Settings file
// ------------------------------------------------------------------

/// The settings given what was read and parsed from the settings file
/// (`None` where it is missing, unreadable or invalid): the defaults of
/// `platform` when there is nothing.
pub fn load_settings(stored: Option<Settings>, platform: Platform) -> (res: Settings)
    ensures
        match stored {
            Some(s) => res == s,
            None => res.is_default_for(platform),
        },
{
    match stored {
        Some(s) => s,
        None => Settings::default_for(platform),
    }
}

// ------------------------------------------------------------------
// Log rotation
// ------------------------------------------------------------------

/// A log file grows to this many bytes before it is rotated.
pub const MAX_LOG_SIZE: u64 = 5 * 1024 * 1024;

/// How many rotated log files are kept.
pub const MAX_LOG_BACKUPS: usize = 3;

/// One file operation of a log rotation; each is skipped when its file is
/// missing.
pub enum LogStep {
    RemoveIfExists(String),
    RenameIfExists(String, String),
}

/// A log rotation step with its file names taken as characters.
pub enum LogStepView {
    RemoveIfExists(Seq<char>),
    RenameIfExists(Seq<char>, Seq<char>),
}

impl View for LogStep {
    type V = LogStepView;

    open spec fn view(&self) -> LogStepView {
        match self {
            LogStep::RemoveIfExists(a) => LogStepView::RemoveIfExists(a@),
            LogStep::RenameIfExists(a, b) => LogStepView::RenameIfExists(a@, b@),
        }
    }
}

/// The name of the current log file (`k == 0`) or of its `k`-th backup.
pub open spec fn log_name(k: nat) -> Seq<char> {
    if k == 0 {
        "pastoid.log"@
    } else {
        "pastoid.log."@ + decimal(k)
    }
}

/// The rotation of a log of `size` bytes (`None` when there is no log): a
/// log under `MAX_LOG_SIZE` stays; a larger one drops the oldest backup,
/// shifts every other backup one place up, and becomes the first backup.
pub open spec fn rotation_plan(size: Option<u64>) -> Seq<LogStepView> {
    match size {
        Some(n) if n >= MAX_LOG_SIZE => seq![
            LogStepView::RemoveIfExists(log_name(MAX_LOG_BACKUPS as nat)),
        ] + Seq::new(
            MAX_LOG_BACKUPS as nat,
            |k: int|
                LogStepView::RenameIfExists(
                    log_name((MAX_LOG_BACKUPS - k - 1) as nat),
                    log_name((MAX_LOG_BACKUPS - k) as nat),
                ),
        ),
        _ => Seq::empty(),
    }
}

/// Every log of 5 MiB (5,242,880 bytes) or more is rotated, and the same way
/// whatever its size: the third backup `pastoid.log.3` is removed,
/// `pastoid.log.2` becomes `pastoid.log.3`, `pastoid.log.1` becomes
/// `pastoid.log.2` and `pastoid.log` becomes `pastoid.log.1`. A smaller log,
/// or none, is left alone.
pub proof fn lemma_rotation_by_size(size: Option<u64>)
    ensures
        MAX_LOG_SIZE == 5_242_880,
        (size matches Some(n) && n >= 5_242_880) ==> rotation_plan(size) == seq![
            LogStepView::RemoveIfExists("pastoid.log.3"@),
            LogStepView::RenameIfExists("pastoid.log.2"@, "pastoid.log.3"@),
            LogStepView::RenameIfExists("pastoid.log.1"@, "pastoid.log.2"@),
            LogStepView::RenameIfExists("pastoid.log"@, "pastoid.log.1"@),
        ],
        (size matches Some(n) && n >= 5_242_880) ==> rotation_plan(size) == rotation_plan(
            Some(MAX_LOG_SIZE),
        ),
        !(size matches Some(n) && n >= 5_242_880) ==> rotation_plan(size).len() == 0,
{
    reveal_strlit("pastoid.log");
    reveal_strlit("pastoid.log.");
    reveal_strlit("pastoid.log.1");
    reveal_strlit("pastoid.log.2");
    reveal_strlit("pastoid.log.3");
    assert(digit_char(1) == '1' && digit_char(2) == '2' && digit_char(3) == '3');
    assert(log_name(1) =~= "pastoid.log.1"@);
    assert(log_name(2) =~= "pastoid.log.2"@);
    assert(log_name(3) =~= "pastoid.log.3"@);
    if size matches Some(n) && n >= 5_242_880 {
        assert(rotation_plan(size) =~= seq![
            LogStepView::RemoveIfExists("pastoid.log.3"@),
            LogStepView::RenameIfExists("pastoid.log.2"@, "pastoid.log.3"@),
            LogStepView::RenameIfExists("pastoid.log.1"@, "pastoid.log.2"@),
            LogStepView::RenameIfExists("pastoid.log"@, "pastoid.log.1"@),
        ]);
        assert(rotation_plan(Some(MAX_LOG_SIZE)) =~= rotation_plan(size));
    }
}

/// The decimal digit `d` (below ten) as a character.
pub open spec fn digit_char(d: nat) -> char {
    ((48 + d) as u8) as char
}

/// `n` written in decimal, without leading zeros.
pub open spec fn decimal(n: nat) -> Seq<char>
    decreases n,
{
    if n < 10 {
        seq![digit_char(n)]
    } else {
        decimal(n / 10) + seq![digit_char(n % 10)]
    }
}

/// Appends `n` written in decimal.
fn push_decimal(out: &mut Vec<char>, n: usize)
    ensures
        final(out)@ == old(out)@ + decimal(n as nat),
    decreases n,
{
    if n >= 10 {
        push_decimal(out, n / 10);
    }
    let d = (n % 10) as u8;
    out.push((48 + d) as char);
    assert(out@ =~= old(out)@ + decimal(n as nat));
}

/// The name of the current log file (`k == 0`) or of its `k`-th backup.
pub fn log_file_name(k: usize) -> (res: String)
    ensures
        res@ == log_name(k as nat),
{
    if k == 0 {
        "pastoid.log".to_owned()
    } else {
        let mut chars = chars_of("pastoid.log.");
        push_decimal(&mut chars, k);
        let res = string_from_chars(&chars);
        assert(res@ =~= log_name(k as nat));
        res
    }
}

/// The file operations that rotate a log of `size` bytes (`None` when there
/// is no log file).
pub fn rotate_logs_plan(size: Option<u64>) -> (res: Vec<LogStep>)
    ensures
        res@.map_values(|s: LogStep| s@) == rotation_plan(size),
{
    let mut steps: Vec<LogStep> = Vec::new();
    let big = match size {
        Some(n) => n >= MAX_LOG_SIZE,
        None => false,
    };
    if !big {
        assert(steps@.map_values(|s: LogStep| s@) =~= rotation_plan(size));
        return steps;
    }
    steps.push(LogStep::RemoveIfExists(log_file_name(MAX_LOG_BACKUPS)));
    let ghost plan = rotation_plan(size);
    let mut k: usize = 0;
    while k < MAX_LOG_BACKUPS
        invariant
            k <= MAX_LOG_BACKUPS,
            plan == rotation_plan(size),
            plan.len() == MAX_LOG_BACKUPS + 1,
            steps@.map_values(|s: LogStep| s@) == plan.take(k + 1),
        decreases MAX_LOG_BACKUPS - k,
    {
        let from = log_file_name(MAX_LOG_BACKUPS - k - 1);
        let to = log_file_name(MAX_LOG_BACKUPS - k);
        let ghost before = steps@;
        let step = LogStep::RenameIfExists(from, to);
        assert(plan[k + 1] == step@);
        steps.push(step);
        assert(steps@.map_values(|s: LogStep| s@) =~= before.map_values(|s: LogStep| s@).push(
            step@,
        ));
        assert(plan.take(k + 1).push(plan[k + 1]) =~= plan.take(k + 2));
        k = k + 1;
    }
    assert(plan.take(MAX_LOG_BACKUPS + 1) =~= plan);
    steps
}

// ------------------------------------------------------------------
// Laws of the recency order
// ------------------------------------------------------------------

/// Every entry is at least as recent as each entry after it.
pub open spec fn newest_first(s: Seq<ItemView>) -> bool {
    forall|i: int, j: int| 0 <= i < j < s.len() ==> s[i].created_at >= s[j].created_at
}

/// Whether an entry was created at instant `t`.
pub open spec fn created_at_is(t: i64) -> spec_fn(ItemView) -> bool {
    |x: ItemView| x.created_at == t
}

/// The position at which `insert_by_recency` places `x`.
pub open spec fn recency_slot(s: Seq<ItemView>, x: ItemView) -> int
    decreases s.len(),
{
    if s.len() == 0 {
        0
    } else if s[0].created_at >= x.created_at {
        1 + recency_slot(s.drop_first(), x)
    } else {
        0
    }
}

proof fn lemma_recency_slot(s: Seq<ItemView>, x: ItemView)
    ensures
        0 <= recency_slot(s, x) <= s.len(),
        forall|j: int| 0 <= j < recency_slot(s, x) ==> s[j].created_at >= x.created_at,
        recency_slot(s, x) < s.len() ==> s[recency_slot(s, x)].created_at < x.created_at,
    decreases s.len(),
{
    if s.len() > 0 && s[0].created_at >= x.created_at {
        lemma_recency_slot(s.drop_first(), x);
        assert forall|j: int| 0 <= j < recency_slot(s, x) implies s[j].created_at
            >= x.created_at by {
            if j > 0 {
                assert(s[j] == s.drop_first()[j - 1]);
            }
        }
    }
}

/// One entry as a one-entry filter result.
proof fn lemma_filter_single(x: ItemView, p: spec_fn(ItemView) -> bool)
    ensures
        seq![x].filter(p) == (if p(x) { seq![x] } else { Seq::<ItemView>::empty() }),
{
    reveal(Seq::filter);
    assert(seq![x].drop_last() =~= Seq::<ItemView>::empty());
    assert(Seq::<ItemView>::empty().filter(p) =~= Seq::<ItemView>::empty());
    if p(x) {
        assert(Seq::<ItemView>::empty().push(x) =~= seq![x]);
    }
}

/// Inserting into a newest-first sequence keeps it newest-first, adds exactly
/// `x`, and puts `x` after the entries created at the same instant.
pub proof fn lemma_insert_by_recency_properties(s: Seq<ItemView>, x: ItemView)
    requires
        newest_first(s),
    ensures
        newest_first(insert_by_recency(s, x)),
        insert_by_recency(s, x).to_multiset() == s.to_multiset().insert(x),
        forall|t: i64|
            #[trigger] insert_by_recency(s, x).filter(created_at_is(t)) == s.filter(
                created_at_is(t),
            ) + (if x.created_at == t { seq![x] } else { Seq::<ItemView>::empty() }),
{
    broadcast use Seq::filter_distributes_over_add;
    broadcast use vstd::seq_lib::to_multiset_insert;

    lemma_recency_slot(s, x);
    let p = recency_slot(s, x);
    lemma_insert_by_recency_at(s, x, p);
    let r = s.insert(p, x);
    assert(r =~= s.take(p) + seq![x] + s.skip(p));
    assert(s =~= s.take(p) + s.skip(p));
    assert forall|i: int, j: int| 0 <= i < j < r.len() implies r[i].created_at
        >= r[j].created_at by {
        if j < p {
            assert(r[i] == s[i] && r[j] == s[j]);
        } else if j == p {
            assert(r[j] == x);
            assert(r[i] == s[i]);
        } else if i < p {
            assert(r[i] == s[i] && r[j] == s[j - 1]);
        } else if i == p {
            assert(r[i] == x && r[j] == s[j - 1]);
            assert(s[p].created_at < x.created_at);
        } else {
            assert(r[i] == s[i - 1] && r[j] == s[j - 1]);
        }
    }
    assert forall|t: i64|
        #[trigger] r.filter(created_at_is(t)) == s.filter(created_at_is(t)) + (if x.created_at
            == t { seq![x] } else { Seq::<ItemView>::empty() }) by {
        let pred = created_at_is(t);
        lemma_filter_single(x, pred);
        if x.created_at == t {
            let tail = s.skip(p);
            assert(tail.all(|y: ItemView| !pred(y))) by {
                assert forall|k: int| 0 <= k < tail.len() implies !pred(#[trigger] tail[k]) by {
                    assert(tail[k] == s[p + k]);
                    assert(s[p].created_at >= s[p + k].created_at || k == 0);
                }
            }
            tail.lemma_all_neg_filter_empty(pred);
            assert(tail.filter(pred) =~= Seq::<ItemView>::empty());
            assert(s.take(p).filter(pred) + seq![x] + tail.filter(pred) =~= s.take(p).filter(pred)
                + tail.filter(pred) + seq![x]);
        } else {
            assert(s.take(p).filter(pred) + Seq::<ItemView>::empty() + s.skip(p).filter(pred)
                =~= s.take(p).filter(pred) + s.skip(p).filter(pred) + Seq::<ItemView>::empty());
        }
    }
}

/// Sorting by recency orders the entries from newest to oldest, keeps exactly
/// the same entries, and keeps entries created at the same instant in the
/// order they had (the sort is stable).
pub proof fn lemma_by_recency_properties(s: Seq<ItemView>)
    ensures
        newest_first(by_recency(s)),
        by_recency(s).to_multiset() == s.to_multiset(),
        forall|t: i64| #[trigger] by_recency(s).filter(created_at_is(t)) == s.filter(created_at_is(t)),
    decreases s.len(),
{
    broadcast use vstd::seq_lib::to_multiset_build;

    if s.len() == 0 {
        reveal(Seq::filter);
    } else {
        let init = s.drop_last();
        lemma_by_recency_properties(init);
        lemma_insert_by_recency_properties(by_recency(init), s.last());
        assert(init.push(s.last()) =~= s);
        assert forall|t: i64| #[trigger] by_recency(s).filter(created_at_is(t)) == s.filter(
            created_at_is(t),
        ) by {
            reveal(Seq::filter);
            assert(by_recency(s).filter(created_at_is(t)) == by_recency(init).filter(created_at_is(t))
                + (if s.last().created_at == t { seq![s.last()] } else { Seq::<ItemView>::empty() }));
            if s.last().created_at == t {
                assert(init.filter(created_at_is(t)) + seq![s.last()] =~= init.filter(created_at_is(t)).push(s.last()));
            } else {
                assert(init.filter(created_at_is(t)) + Seq::<ItemView>::empty() =~= init.filter(created_at_is(t)));
            }
        }
    }
}

// ------------------------------------------------------------------
// Laws of truncation
// ------------------------------------------------------------------

/// Filtering by a predicate that every entry meets keeps every entry.
proof fn lemma_filter_all(s: Seq<ItemView>, p: spec_fn(ItemView) -> bool)
    requires
        forall|i: int| 0 <= i < s.len() ==> p(#[trigger] s[i]),
    ensures
        s.filter(p) == s,
    decreases s.len(),
{
    reveal(Seq::filter);
    if s.len() > 0 {
        lemma_filter_all(s.drop_last(), p);
        assert(s.drop_last().push(s.last()) =~= s);
    }
}

/// Filtering by a predicate that no entry meets keeps nothing.
proof fn lemma_filter_none(s: Seq<ItemView>, p: spec_fn(ItemView) -> bool)
    requires
        forall|i: int| 0 <= i < s.len() ==> !p(#[trigger] s[i]),
    ensures
        s.filter(p) == Seq::<ItemView>::empty(),
    decreases s.len(),
{
    reveal(Seq::filter);
    if s.len() > 0 {
        lemma_filter_none(s.drop_last(), p);
    }
    assert(s.filter(p) =~= Seq::<ItemView>::empty());
}

/// The pieces that a truncation is built from: pinned entries on one side,
/// unpinned ones, newest first, on the other.
proof fn lemma_trim_parts(s: Seq<ItemView>)
    ensures
        forall|i: int| 0 <= i < pinned_of(s).len() ==> (#[trigger] pinned_of(s)[i]).is_pinned,
        forall|i: int|
            0 <= i < by_recency(unpinned_of(s)).len() ==> !(#[trigger] by_recency(
                unpinned_of(s),
            )[i]).is_pinned,
        by_recency(unpinned_of(s)).len() == unpinned_of(s).len(),
        pinned_of(s).len() + unpinned_of(s).len() == s.len(),
{
    broadcast use Seq::lemma_filter_pred;
    let u = unpinned_of(s);
    let r = by_recency(u);
    r.to_multiset_ensures();
    u.to_multiset_ensures();
    lemma_by_recency_properties(u);
    lemma_by_recency_len(u);
    lemma_filter_split_len(s);
    assert forall|i: int| 0 <= i < r.len() implies !(#[trigger] r[i]).is_pinned by {
        assert(r.contains(r[i]));
        assert(r.to_multiset().count(r[i]) > 0);
        assert(u.contains(r[i]));
        let k = choose|k: int| 0 <= k < u.len() && u[k] == r[i];
        assert(!u[k].is_pinned);
    }
}

/// Truncation never drops a pinned entry, and keeps the pinned entries in
/// their order.
pub proof fn lemma_trimmed_keeps_pinned(s: Seq<ItemView>, max: nat)
    ensures
        pinned_of(trimmed(s, max)) == pinned_of(s),
{
    broadcast use Seq::filter_distributes_over_add;

    if s.len() > max {
        lemma_trim_parts(s);
        let pinned = pinned_of(s);
        let rest = by_recency(unpinned_of(s));
        let kept = rest.take(unpinned_room(max, pinned.len()) as int);
        lemma_filter_all(pinned, |x: ItemView| x.is_pinned);
        lemma_filter_none(kept, |x: ItemView| x.is_pinned);
        assert(pinned + Seq::<ItemView>::empty() =~= pinned);
    }
}

/// Truncation leaves at most `max` entries, unless the pinned entries alone
/// are more than `max`; then exactly the pinned entries are left.
pub proof fn lemma_trimmed_len(s: Seq<ItemView>, max: nat)
    ensures
        trimmed(s, max).len() == (if s.len() <= max {
            s.len()
        } else if pinned_of(s).len() >= max {
            pinned_of(s).len()
        } else {
            max
        }),
{
    if s.len() > max {
        lemma_trim_parts(s);
    }
}

/// Truncating twice to the same bound is the same as truncating once.
pub proof fn lemma_trimmed_idempotent(s: Seq<ItemView>, max: nat)
    ensures
        trimmed(trimmed(s, max), max) == trimmed(s, max),
{
    lemma_trimmed_len(s, max);
    if s.len() > max {
        let t = trimmed(s, max);
        let pinned = pinned_of(s);
        lemma_trim_parts(s);
        if pinned.len() > max {
            let rest = by_recency(unpinned_of(s));
            assert(rest.take(0) =~= Seq::<ItemView>::empty());
            assert(t =~= pinned);
            lemma_filter_all(pinned, |x: ItemView| x.is_pinned);
            lemma_filter_none(pinned, |x: ItemView| !x.is_pinned);
            reveal_with_fuel(by_recency, 1);
            assert(by_recency(Seq::<ItemView>::empty()).take(0) =~= Seq::<ItemView>::empty());
            assert(trimmed(t, max) =~= pinned + Seq::<ItemView>::empty());
        }
    }
}

/// After truncation the history fits the bound, unless every entry left is
/// pinned.
pub proof fn lemma_trimmed_within_bound(s: Seq<ItemView>, max: nat)
    ensures
        trimmed(s, max).len() <= max || forall|i: int|
            0 <= i < trimmed(s, max).len() ==> (#[trigger] trimmed(s, max)[i]).is_pinned,
{
    lemma_trimmed_len(s, max);
    if s.len() > max && pinned_of(s).len() >= max {
        lemma_trim_parts(s);
        let pinned = pinned_of(s);
        let rest = by_recency(unpinned_of(s));
        assert(rest.take(0) =~= Seq::<ItemView>::empty());
        assert(trimmed(s, max) =~= pinned);
    }
}

} // verus!
