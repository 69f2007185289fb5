use vstd::prelude::*;

verus! {

/// One entry of the clipboard history.
#[derive(Debug)]
pub struct ClipboardItem {
    pub id: String,
    pub content: String,
    pub item_type: String,
    pub created_at: i64,
    pub updated_at: i64,
    pub is_pinned: bool,
    pub tags: Option<Vec<String>>,
    pub source: Option<String>,
}

/// Copies a list of strings element by element.
fn clone_strings(v: &Vec<String>) -> (res: Vec<String>)
    ensures
        res@ == v@,
{
    let mut res: Vec<String> = Vec::new();
    for i in 0..v.len()
        invariant
            res@ == v@.take(i as int),
    {
        res.push(v[i].clone());
        assert(res@ =~= v@.take(i + 1));
    }
    assert(v@.take(v.len() as int) =~= v@);
    res
}

/// What a clipboard entry holds, with each string taken as its characters.
pub struct ItemView {
    pub id: Seq<char>,
    pub content: Seq<char>,
    pub item_type: Seq<char>,
    pub created_at: i64,
    pub updated_at: i64,
    pub is_pinned: bool,
    pub tags: Option<Seq<Seq<char>>>,
    pub source: Option<Seq<char>>,
}

/// The characters of each string of a list.
pub open spec fn strings_view(v: Seq<String>) -> Seq<Seq<char>> {
    v.map_values(|s: String| s@)
}

impl View for ClipboardItem {
    type V = ItemView;

    open spec fn view(&self) -> ItemView {
        ItemView {
            id: self.id@,
            content: self.content@,
            item_type: self.item_type@,
            created_at: self.created_at,
            updated_at: self.updated_at,
            is_pinned: self.is_pinned,
            tags: match self.tags {
                Some(v) => Some(strings_view(v@)),
                None => None,
            },
            source: match self.source {
                Some(s) => Some(s@),
                None => None,
            },
        }
    }
}

/// The views of a sequence of entries.
pub open spec fn item_views(s: Seq<ClipboardItem>) -> Seq<ItemView> {
    s.map_values(|x: ClipboardItem| x@)
}

impl Clone for ClipboardItem {
    fn clone(&self) -> (res: Self)
        ensures
            res@ == self@,
    {
        let tags = match &self.tags {
            Some(v) => Some(clone_strings(v)),
            None => None,
        };
        let source = match &self.source {
            Some(s) => Some(s.clone()),
            None => None,
        };
        ClipboardItem {
            id: self.id.clone(),
            content: self.content.clone(),
            item_type: self.item_type.clone(),
            created_at: self.created_at,
            updated_at: self.updated_at,
            is_pinned: self.is_pinned,
            tags,
            source,
        }
    }
}

/// The operating systems whose conventions differ.
#[derive(Clone, Copy, Debug, PartialEq, Eq, Structural)]
pub enum Platform {
    MacOs,
    Windows,
    Linux,
}

/// The system clock's reading. Which time it is depends on the clock and
/// is not stated.
#[verifier::external_type_specification]
#[verifier::external_body]
pub struct ExSystemTime(std::time::SystemTime);

/// Reads the system clock: `std::time::SystemTime::now`. Nothing is stated of
/// the time it gives.
#[verifier::external_body]
fn system_time_now() -> std::time::SystemTime {
    std::time::SystemTime::now()
}

/// The time from the Unix epoch to `t` as whole seconds and the nanoseconds
/// beyond them: `SystemTime::duration_since(UNIX_EPOCH)`, which fails (here
/// `None`) when `t` lies before the epoch. The nanoseconds of a `Duration` are
/// always below one billion.
#[verifier::external_body]
fn time_since_epoch(t: &std::time::SystemTime) -> (res: Option<(u64, u32)>)
    ensures
        res matches Some(p) ==> p.1 < 1_000_000_000,
{
    t.duration_since(std::time::UNIX_EPOCH).ok().map(|d| (d.as_secs(), d.subsec_nanos()))
}

/// The milliseconds since the epoch of the instant `secs` seconds and `nanos`
/// nanoseconds after it: `chrono::DateTime::from_timestamp(secs, nanos)`
/// followed by `timestamp_millis`. `from_timestamp` gives `None` only for
/// seconds out of chrono's range (about 262,000 years each way) or invalid
/// nanoseconds; the instant it builds gives back `secs` and `nanos`, so the
/// milliseconds are `secs * 1000 + nanos / 1_000_000`.
#[verifier::external_body]
fn timestamp_millis(secs: i64, nanos: u32) -> (res: Option<i64>)
    ensures
        res matches Some(t) ==> t == secs * 1000 + nanos / 1_000_000,
        (0 <= secs <= 8_000_000_000_000 && nanos < 1_000_000_000) ==> res is Some,
{
    chrono::DateTime::from_timestamp(secs, nanos).map(|t| t.timestamp_millis())
}

/// The current time in milliseconds since the Unix epoch, or `None` when the
/// clock cannot be read as such (set before the epoch, or beyond what a
/// timestamp holds).
pub fn now_millis() -> (res: Option<i64>)
    ensures
        res matches Some(t) ==> t >= 0,
{
    let now = system_time_now();
    match time_since_epoch(&now) {
        Some((secs, nanos)) => {
            if secs > 8_000_000_000_000 {
                return None;
            }
            timestamp_millis(secs as i64, nanos)
        },
        None => None,
    }
}

impl ClipboardItem {
    /// A new, unpinned entry with identifier `id` (the application draws a
    /// fresh random one), created and updated now; `None` when the clock
    /// cannot be read.
    pub fn new(content: String, item_type: &str, id: String) -> (res: Option<Self>)
        ensures
            res matches Some(x) ==> {
                &&& x@.id == id@
                &&& x@.content == content@
                &&& x@.item_type == item_type@
                &&& x@.created_at == x@.updated_at
                &&& x@.created_at >= 0
                &&& !x@.is_pinned
                &&& (x@.tags is None)
                &&& (x@.source is None)
            },
    {
        match now_millis() {
            Some(now) => Some(Self::from_parts(id, content, item_type, now)),
            None => None,
        }
    }

    /// A new, unpinned entry with the given identifier, created and updated
    /// at `now`.
    pub fn from_parts(id: String, content: String, item_type: &str, now: i64) -> (res: Self)
        ensures
            res@ == (ItemView {
                id: id@,
                content: content@,
                item_type: item_type@,
                created_at: now,
                updated_at: now,
                is_pinned: false,
                tags: None,
                source: None,
            }),
    {
        ClipboardItem {
            id,
            content,
            item_type: item_type.to_owned(),
            created_at: now,
            updated_at: now,
            is_pinned: false,
            tags: None,
            source: None,
        }
    }
}

/// The user's preferences.
#[derive(Debug)]
pub struct Settings {
    pub language: String,
    pub theme: String,
    pub autostart: bool,
    pub max_items: u32,
    pub shortcut: String,
}

/// The shortcut that opens the quick-paste panel unless the user chose another.
pub open spec fn default_shortcut(platform: Platform) -> Seq<char> {
    if platform == Platform::MacOs {
        "Cmd+Shift+V"@
    } else {
        "Ctrl+Shift+V"@
    }
}

impl Settings {
    /// Whether `self` holds the default preferences of `platform`.
    pub open spec fn is_default_for(&self, platform: Platform) -> bool {
        &&& self.language@ == "zh"@
        &&& self.theme@ == "system"@
        &&& !self.autostart
        &&& self.max_items == 20
        &&& self.shortcut@ == default_shortcut(platform)
    }

    /// The default preferences on `platform`: Chinese, the system theme, no
    /// autostart, 20 entries, and the platform's quick-paste shortcut.
    pub fn default_for(platform: Platform) -> (res: Self)
        ensures
            res.is_default_for(platform),
    {
        let shortcut = match platform {
            Platform::MacOs => "Cmd+Shift+V".to_owned(),
            _ => "Ctrl+Shift+V".to_owned(),
        };
        Settings {
            language: "zh".to_owned(),
            theme: "system".to_owned(),
            autostart: false,
            max_items: 20,
            shortcut,
        }
    }
}

impl Default for Settings {
    /// The default preferences of Windows and Linux (`Ctrl+Shift+V`); the
    /// defaults of another platform, macOS among them, come from
    /// `Settings::default_for`.
    fn default() -> (res: Self)
        ensures
            res.is_default_for(Platform::Linux),
    {
        Settings::default_for(Platform::Linux)
    }
}

impl Clone for Settings {
    fn clone(&self) -> (res: Self)
        ensures
            res.language@ == self.language@,
            res.theme@ == self.theme@,
            res.autostart == self.autostart,
            res.max_items == self.max_items,
            res.shortcut@ == self.shortcut@,
    {
        Settings {
            language: self.language.clone(),
            theme: self.theme.clone(),
            autostart: self.autostart,
            max_items: self.max_items,
            shortcut: self.shortcut.clone(),
        }
    }
}

/// What the application keeps while it runs: the history, the data
/// directory and the current settings.
pub struct AppState {
    pub repo: crate::repository::ClipboardRepository,
    pub data_dir: String,
    pub settings: Settings,
}

impl AppState {
    /// The entries the history view shows: as many as the settings allow, in
    /// the order that `get_history` gives.
    pub fn history_items(&self) -> (res: Vec<ClipboardItem>)
        ensures
            item_views(res@) == crate::repository::history_order(self.repo@.items).take(
                if (self.settings.max_items as nat) < self.repo@.items.len() {
                    self.settings.max_items as int
                } else {
                    self.repo@.items.len() as int
                },
            ),
    {
        self.repo.get_history(self.settings.max_items as usize)
    }
}

/// Which settings a save changes, each of which the application must act upon.
pub struct SettingsChanges {
    /// The bound on the history changed: the history is to be cut down.
    pub max_items: bool,
    /// The quick-paste shortcut changed: it is to be registered anew.
    pub shortcut: bool,
    /// The theme changed: the windows are to be told.
    pub theme: bool,
}

/// Which settings differ between the current settings and the ones saved.
pub fn settings_changes(current: &Settings, new: &Settings) -> (res: SettingsChanges)
    ensures
        res.max_items == (current.max_items != new.max_items),
        res.shortcut == (current.shortcut@ != new.shortcut@),
        res.theme == (current.theme@ != new.theme@),
{
    SettingsChanges {
        max_items: current.max_items != new.max_items,
        shortcut: current.shortcut != new.shortcut,
        theme: current.theme != new.theme,
    }
}

} // verus!
