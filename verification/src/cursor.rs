//! The Cursor editor's chat history: where it is stored, and the messages
//! that the user typed in it.
use vstd::prelude::*;

use crate::messages::{AdapterKind, UserMessage};
use crate::text::{chars_of, lemma_trim_idempotent, push_char, trim, trimmed};

verus! {

// ---------------------------------------------------------------------------
// Paths
// ---------------------------------------------------------------------------

/// The operating system whose path conventions apply.
#[derive(Clone, Copy, Debug, PartialEq, Eq, Structural)]
pub enum Platform {
    MacOs,
    Windows,
    Other,
}

/// `c` separates path components on `platform`.
pub open spec fn is_separator(c: char, platform: Platform) -> bool {
    c == '/' || (platform == Platform::Windows && c == '\\')
}

/// The separator that joining inserts on `platform`.
pub open spec fn main_separator(platform: Platform) -> char {
    if platform == Platform::Windows {
        '\\'
    } else {
        '/'
    }
}

/// `base` is a bare drive such as `C:`, which Windows joins without a separator.
pub open spec fn is_bare_drive(base: Seq<char>, platform: Platform) -> bool {
    &&& platform == Platform::Windows
    &&& base.len() == 2
    &&& base[1] == ':'
    &&& (('A' <= base[0] && base[0] <= 'Z') || ('a' <= base[0] && base[0] <= 'z'))
}

/// `base` with the relative component `part` appended, as `Path::join` does
/// for plain paths: a separator goes between them unless `base` is empty,
/// already ends in one, or is a bare Windows drive. Windows verbatim paths
/// (those that start with `\\?\`), which `Path::join` rebuilds, are not
/// covered: for them this inserts `\` where `Path::join` may not.
pub open spec fn joined(base: Seq<char>, part: Seq<char>, platform: Platform) -> Seq<char> {
    if base.len() == 0 || is_separator(base.last(), platform) || is_bare_drive(base, platform) {
        base + part
    } else {
        base.push(main_separator(platform)) + part
    }
}

/// `base` joined with the relative component `part`.
pub fn join_path(base: &str, part: &str, platform: Platform) -> (path: String)
    ensures
        path@ == joined(base@, part@, platform),
{
    let cs = chars_of(base);
    let mut path = String::from_str(base);
    if cs.len() > 0 {
        let last = cs[cs.len() - 1];
        let is_sep = last == '/' || (platform == Platform::Windows && last == '\\');
        let bare_drive = platform == Platform::Windows && cs.len() == 2 && cs[1] == ':' && (('A'
            <= cs[0] && cs[0] <= 'Z') || ('a' <= cs[0] && cs[0] <= 'z'));
        if !is_sep && !bare_drive {
            if platform == Platform::Windows {
                push_char(&mut path, '\\');
            } else {
                push_char(&mut path, '/');
            }
        }
    }
    path.append(part);
    proof {
        if cs@.len() == 0 {
            assert(base@ + part@ =~= part@);
        }
    }
    path
}

/// Where Cursor keeps its data, given the home directory, the platform and
/// the values of `APPDATA` (used on Windows) and `XDG_CONFIG_HOME` (used on
/// other systems but macOS).
pub open spec fn cursor_root_dir(
    home: Seq<char>,
    platform: Platform,
    appdata: Option<Seq<char>>,
    xdg_config_home: Option<Seq<char>>,
) -> Seq<char> {
    match platform {
        Platform::MacOs => joined(
            joined(joined(home, "Library"@, platform), "Application Support"@, platform),
            "Cursor"@,
            platform,
        ),
        Platform::Windows => joined(
            match appdata {
                Some(dir) => dir,
                None => joined(joined(home, "AppData"@, platform), "Roaming"@, platform),
            },
            "Cursor"@,
            platform,
        ),
        Platform::Other => joined(
            match xdg_config_home {
                Some(dir) => dir,
                None => joined(home, ".config"@, platform),
            },
            "Cursor"@,
            platform,
        ),
    }
}

/// Where Cursor keeps its data (see `cursor_root_dir`).
pub fn resolve_cursor_root_dir(
    home: &str,
    platform: Platform,
    appdata: Option<&str>,
    xdg_config_home: Option<&str>,
) -> (dir: String)
    ensures
        dir@ == cursor_root_dir(
            home@,
            platform,
            match appdata {
                Some(d) => Some(d@),
                None => None,
            },
            match xdg_config_home {
                Some(d) => Some(d@),
                None => None,
            },
        ),
{
    match platform {
        Platform::MacOs => {
            let library = join_path(home, "Library", platform);
            let support = join_path(library.as_str(), "Application Support", platform);
            join_path(support.as_str(), "Cursor", platform)
        },
        Platform::Windows => {
            let base = match appdata {
                Some(dir) => String::from_str(dir),
                None => {
                    let appdata_dir = join_path(home, "AppData", platform);
                    join_path(appdata_dir.as_str(), "Roaming", platform)
                },
            };
            join_path(base.as_str(), "Cursor", platform)
        },
        Platform::Other => {
            let base = match xdg_config_home {
                Some(dir) => String::from_str(dir),
                None => join_path(home, ".config", platform),
            };
            join_path(base.as_str(), "Cursor", platform)
        },
    }
}

/// The Cursor adapter: the directory where Cursor keeps its data, and the
/// platform whose path conventions apply to it.
#[derive(Debug)]
pub struct CursorAdapter {
    root_dir: String,
    platform: Platform,
}

impl CursorAdapter {
    /// The adapter's data directory.
    pub closed spec fn root(&self) -> Seq<char> {
        self.root_dir@
    }

    /// The platform the adapter's paths follow.
    pub closed spec fn platform_of(&self) -> Platform {
        self.platform
    }

    /// The adapter for the user whose home directory is `home`.
    pub fn new(home: &str, platform: Platform, appdata: Option<&str>, xdg_config_home: Option<&str>) -> (a: Self)
        ensures
            a.root() == cursor_root_dir(
                home@,
                platform,
                match appdata {
                    Some(d) => Some(d@),
                    None => None,
                },
                match xdg_config_home {
                    Some(d) => Some(d@),
                    None => None,
                },
            ),
            a.platform_of() == platform,
    {
        CursorAdapter { root_dir: resolve_cursor_root_dir(home, platform, appdata, xdg_config_home), platform }
    }

    /// The adapter whose data directory is `path`.
    pub fn from_path(path: &str, platform: Platform) -> (a: Self)
        ensures
            a.root() == path@,
            a.platform_of() == platform,
    {
        CursorAdapter { root_dir: String::from_str(path), platform }
    }

    /// The adapter's data directory.
    pub fn root_dir(&self) -> (dir: &str)
        ensures
            dir@ == self.root(),
    {
        self.root_dir.as_str()
    }

    /// The directory holding one folder per workspace, each with its own
    /// database: `<root>/User/workspaceStorage`.
    pub fn workspace_storage_dir(&self) -> (dir: String)
        ensures
            dir@ == joined(joined(self.root(), "User"@, self.platform_of()), "workspaceStorage"@, self.platform_of()),
    {
        let user = join_path(self.root_dir.as_str(), "User", self.platform);
        join_path(user.as_str(), "workspaceStorage", self.platform)
    }

    /// The database shared by all workspaces:
    /// `<root>/User/globalStorage/state.vscdb`.
    pub fn global_storage_db_path(&self) -> (path: String)
        ensures
            path@ == joined(
                joined(joined(self.root(), "User"@, self.platform_of()), "globalStorage"@, self.platform_of()),
                "state.vscdb"@,
                self.platform_of(),
            ),
    {
        let user = join_path(self.root_dir.as_str(), "User", self.platform);
        let global = join_path(user.as_str(), "globalStorage", self.platform);
        join_path(global.as_str(), "state.vscdb", self.platform)
    }
}

// ---------------------------------------------------------------------------
// Chat data
// ---------------------------------------------------------------------------

/// The text of a chat bubble, which Cursor may store as `null`.
#[derive(Debug)]
pub enum CursorText {
    Text(String),
    Null(()),
}

impl Default for CursorText {
    fn default() -> (t: Self)
        ensures
            t == CursorText::Null(()),
    {
        CursorText::Null(())
    }
}

/// The characters of a bubble's text (none for `null`).
pub open spec fn cursor_text_chars(t: CursorText) -> Seq<char> {
    match t {
        CursorText::Text(s) => s@,
        CursorText::Null(_) => Seq::empty(),
    }
}

impl CursorText {
    /// The text, or the empty string for `null`.
    pub fn into_string(self) -> (s: String)
        ensures
            s@ == cursor_text_chars(self),
    {
        match self {
            CursorText::Text(text) => text,
            CursorText::Null(()) => String::new(),
        }
    }
}

/// One bubble of a chat tab: who wrote it (`"user"` for the user) and its text.
#[derive(Debug)]
pub struct CursorBubble {
    pub bubble_type: String,
    pub text: CursorText,
}

/// One chat tab: when it was last sent to (milliseconds since the Unix
/// epoch) and its bubbles.
#[derive(Debug)]
pub struct CursorChatTab {
    pub last_send_time: i64,
    pub bubbles: Vec<CursorBubble>,
}

/// A workspace's chat data: its tabs.
#[derive(Debug)]
pub struct CursorChatData {
    pub tabs: Vec<CursorChatTab>,
}

/// The message a bubble contributes: its trimmed text, when the user wrote
/// it and it is not blank.
pub open spec fn bubble_message(b: CursorBubble) -> Option<Seq<char>> {
    let t = trimmed(cursor_text_chars(b.text));
    if b.bubble_type@ == "user"@ && t.len() > 0 {
        Some(t)
    } else {
        None
    }
}

/// The messages of `bubbles`, in order, each with the time `time`.
pub open spec fn bubbles_messages(bubbles: Seq<CursorBubble>, time: i64) -> Seq<(Seq<char>, i64)>
    decreases bubbles.len(),
{
    if bubbles.len() == 0 {
        Seq::empty()
    } else {
        let prev = bubbles_messages(bubbles.drop_last(), time);
        match bubble_message(bubbles.last()) {
            Some(t) => prev.push((t, time)),
            None => prev,
        }
    }
}

/// The messages of `tabs`, tab by tab.
pub open spec fn tabs_messages(tabs: Seq<CursorChatTab>) -> Seq<(Seq<char>, i64)>
    decreases tabs.len(),
{
    if tabs.len() == 0 {
        Seq::empty()
    } else {
        tabs_messages(tabs.drop_last()) + bubbles_messages(tabs.last().bubbles@, tabs.last().last_send_time)
    }
}

/// The text and time of each message.
pub open spec fn message_entries(ms: Seq<UserMessage>) -> Seq<(Seq<char>, i64)> {
    ms.map_values(|m: UserMessage| (m.text@, m.time))
}

/// Every message came from the Cursor adapter.
pub open spec fn all_from_cursor(ms: Seq<UserMessage>) -> bool {
    forall|i: int| 0 <= i < ms.len() ==> (#[trigger] ms[i]).adapter == AdapterKind::Cursor
}

fn push_tab_messages(out: &mut Vec<UserMessage>, tab: CursorChatTab)
    requires
        all_from_cursor(old(out)@),
    ensures
        all_from_cursor(final(out)@),
        message_entries(final(out)@) == message_entries(old(out)@) + bubbles_messages(
            tab.bubbles@,
            tab.last_send_time,
        ),
{
    let ghost bubbles = tab.bubbles@;
    let time = tab.last_send_time;
    let user = String::from_str("user");
    let ghost start = message_entries(out@);
    for bubble in it: tab.bubbles.into_iter()
        invariant
            it.seq() == bubbles,
            user@ == "user"@,
            all_from_cursor(out@),
            message_entries(out@) == start + bubbles_messages(bubbles.take(it.index() as int), time),
    {
        let ghost k = it.index() as int;
        proof {
            assert(bubbles.take(k + 1).drop_last() =~= bubbles.take(k));
            assert(bubbles.take(k + 1).last() == bubble);
        }
        if bubble.bubble_type == user {
            let text = trim(bubble.text.into_string().as_str());
            if !text.as_str().is_empty() {
                let ghost before = out@;
                out.push(UserMessage { adapter: AdapterKind::Cursor, text, time });
                proof {
                    assert(message_entries(out@) =~= message_entries(before).push((text@, time)));
                }
            }
        }
    }
    proof {
        assert(bubbles.take(bubbles.len() as int) =~= bubbles);
    }
}

/// The messages that the user typed in a workspace's chats, in tab and
/// bubble order, each trimmed, blank ones left out, each with its tab's
/// last send time.
pub fn user_messages(chat: CursorChatData) -> (out: Vec<UserMessage>)
    ensures
        all_from_cursor(out@),
        message_entries(out@) == tabs_messages(chat.tabs@),
{
    let ghost tabs = chat.tabs@;
    let mut out: Vec<UserMessage> = Vec::new();
    proof {
        assert(message_entries(out@) =~= Seq::<(Seq<char>, i64)>::empty());
    }
    for tab in it: chat.tabs.into_iter()
        invariant
            it.seq() == tabs,
            all_from_cursor(out@),
            message_entries(out@) == tabs_messages(tabs.take(it.index() as int)),
    {
        let ghost k = it.index() as int;
        proof {
            assert(tabs.take(k + 1).drop_last() =~= tabs.take(k));
            assert(tabs.take(k + 1).last() == tab);
        }
        push_tab_messages(&mut out, tab);
    }
    proof {
        assert(tabs.take(tabs.len() as int) =~= tabs);
    }
    out
}

/// A bubble that the user wrote and whose trimmed text is not blank adds
/// exactly one message, its trimmed text, after the messages of the bubbles
/// before it, whatever those were.
pub proof fn lemma_user_bubble_adds_its_message(bubbles: Seq<CursorBubble>, b: CursorBubble, time: i64)
    requires
        b.bubble_type@ == "user"@,
        trimmed(cursor_text_chars(b.text)).len() > 0,
    ensures
        bubbles_messages(bubbles.push(b), time) == bubbles_messages(bubbles, time).push(
            (trimmed(cursor_text_chars(b.text)), time),
        ),
{
    assert(bubbles.push(b).drop_last() =~= bubbles);
}

/// A bubble that someone else wrote, or whose trimmed text is blank, adds no
/// message.
pub proof fn lemma_other_bubble_adds_nothing(bubbles: Seq<CursorBubble>, b: CursorBubble, time: i64)
    requires
        b.bubble_type@ != "user"@ || trimmed(cursor_text_chars(b.text)).len() == 0,
    ensures
        bubbles_messages(bubbles.push(b), time) == bubbles_messages(bubbles, time),
{
    assert(bubbles.push(b).drop_last() =~= bubbles);
}

/// The messages of two runs of bubbles, one after the other, are the
/// messages of the first run followed by those of the second: what a bubble
/// contributes does not depend on the bubbles around it.
pub proof fn lemma_bubbles_messages_append(first: Seq<CursorBubble>, second: Seq<CursorBubble>, time: i64)
    ensures
        bubbles_messages(first + second, time) == bubbles_messages(first, time) + bubbles_messages(second, time),
    decreases second.len(),
{
    if second.len() == 0 {
        assert(first + second =~= first);
        assert(bubbles_messages(first, time) + bubbles_messages(second, time) =~= bubbles_messages(first, time));
    } else {
        lemma_bubbles_messages_append(first, second.drop_last(), time);
        assert((first + second).drop_last() =~= first + second.drop_last());
        assert((first + second).last() == second.last());
        let a = bubbles_messages(first, time);
        let b = bubbles_messages(second.drop_last(), time);
        match bubble_message(second.last()) {
            Some(t) => {
                assert(a + b.push((t, time)) =~= (a + b).push((t, time)));
            },
            None => {},
        }
    }
}

/// The number of messages of a run of bubbles is the number of its bubbles
/// that the user wrote with a text that is not blank.
pub proof fn lemma_bubbles_messages_count(bubbles: Seq<CursorBubble>, time: i64)
    ensures
        bubbles_messages(bubbles, time).len() == bubbles.filter(|b: CursorBubble| bubble_message(b) is Some).len(),
    decreases bubbles.len(),
{
    reveal(Seq::filter);
    if bubbles.len() > 0 {
        lemma_bubbles_messages_count(bubbles.drop_last(), time);
    }
}

/// A message text that is not blank and has no whitespace at either end.
pub open spec fn clean_text(t: Seq<char>) -> bool {
    t.len() > 0 && trimmed(t) == t
}

proof fn lemma_bubble_messages_clean(bubbles: Seq<CursorBubble>, time: i64)
    ensures
        forall|i: int|
            0 <= i < bubbles_messages(bubbles, time).len() ==> clean_text(
                (#[trigger] bubbles_messages(bubbles, time)[i]).0,
            ),
    decreases bubbles.len(),
{
    if bubbles.len() > 0 {
        lemma_bubble_messages_clean(bubbles.drop_last(), time);
        let prev = bubbles_messages(bubbles.drop_last(), time);
        if let Some(t) = bubble_message(bubbles.last()) {
            lemma_trim_idempotent(cursor_text_chars(bubbles.last().text));
            assert forall|i: int| 0 <= i < prev.push((t, time)).len() implies clean_text(
                (#[trigger] prev.push((t, time))[i]).0,
            ) by {
                if i < prev.len() {
                    assert(prev.push((t, time))[i] == prev[i]);
                }
            }
        }
    }
}

/// Every message taken from Cursor's chats is not blank and has no
/// whitespace at either end.
pub proof fn lemma_cursor_messages_clean(tabs: Seq<CursorChatTab>)
    ensures
        forall|i: int| 0 <= i < tabs_messages(tabs).len() ==> clean_text((#[trigger] tabs_messages(tabs)[i]).0),
    decreases tabs.len(),
{
    if tabs.len() > 0 {
        lemma_cursor_messages_clean(tabs.drop_last());
        let a = tabs_messages(tabs.drop_last());
        let b = bubbles_messages(tabs.last().bubbles@, tabs.last().last_send_time);
        lemma_bubble_messages_clean(tabs.last().bubbles@, tabs.last().last_send_time);
        assert forall|i: int| 0 <= i < (a + b).len() implies clean_text((#[trigger] (a + b)[i]).0) by {
            if i < a.len() {
                assert((a + b)[i] == a[i]);
            } else {
                assert((a + b)[i] == b[i - a.len()]);
            }
        }
    }
}

} // verus!
