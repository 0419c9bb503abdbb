//! Debouncing: an event is handed on once its path has been quiet for the
//! window of its class.
use vstd::prelude::*;

use crate::clock::{Clock, Duration, Instant, SystemClock, SystemTime, NANOS_PER_MILLI};
use crate::event_intents::{drained_paths, BoundedEventIntentMaps, BoundedFsEventRecorder, EventView,
    MapsView, PendingEventFlags, PendingEventRecord};
use crate::fs_events::FsEventKind;
use crate::path_map::strictly_ordered;
use crate::paths::{extension_of, file_name_of, lemma_last_dot_unique, FsPath, Part};
use crate::text::{ascii_folded, ascii_lowercase, begins_with, eq_ignore_ascii_case, text_starts_with};

verus! {

pub const MIN_DEBOUNCE_WINDOW_MILLIS: u64 = 500;
pub const MAX_DEBOUNCE_WINDOW_MILLIS: u64 = 8_000;
pub const KEY_CONFIG_DEBOUNCE_WINDOW_MILLIS: u64 = 800;
pub const CODE_TEXT_DEBOUNCE_WINDOW_MILLIS: u64 = 1_200;
pub const DOCUMENT_DEBOUNCE_WINDOW_MILLIS: u64 = 2_000;
pub const LOCKFILE_DEBOUNCE_WINDOW_MILLIS: u64 = 5_000;
pub const DEFAULT_DEBOUNCE_WINDOW_MILLIS: u64 = 4_000;

/// Time between two looks at the pending events.
pub const DEBOUNCE_TICK_MILLIS: u64 = 250;

/// What kind of file a path names, for how long it has to be quiet.
#[derive(Clone, Copy, Debug, PartialEq, Eq, Structural)]
pub enum DebounceClass {
    KeyConfig,
    CodeText,
    Document,
    Lockfile,
    Other,
}

/// Equality up to the case of ASCII letters.
pub open spec fn same_folded(a: Seq<char>, b: Seq<char>) -> bool {
    ascii_folded(a) == ascii_folded(b)
}

/// Names of lockfiles.
pub open spec fn is_lockfile_name(name: Seq<char>) -> bool {
    ||| same_folded(name, "bun.lock"@)
    ||| same_folded(name, "bun.lockb"@)
    ||| same_folded(name, "cargo.lock"@)
    ||| same_folded(name, "composer.lock"@)
    ||| same_folded(name, "gemfile.lock"@)
    ||| same_folded(name, "package-lock.json"@)
    ||| same_folded(name, "package.resolved"@)
    ||| same_folded(name, "pipfile.lock"@)
    ||| same_folded(name, "pnpm-lock.yaml"@)
    ||| same_folded(name, "podfile.lock"@)
    ||| same_folded(name, "poetry.lock"@)
    ||| same_folded(name, "uv.lock"@)
    ||| same_folded(name, "yarn.lock"@)
}

fn lockfile_name(name: &str) -> (r: bool)
    ensures
        r == is_lockfile_name(name@),
{
    eq_ignore_ascii_case(name, "bun.lock")
        || eq_ignore_ascii_case(name, "bun.lockb")
        || eq_ignore_ascii_case(name, "cargo.lock")
        || eq_ignore_ascii_case(name, "composer.lock")
        || eq_ignore_ascii_case(name, "gemfile.lock")
        || eq_ignore_ascii_case(name, "package-lock.json")
        || eq_ignore_ascii_case(name, "package.resolved")
        || eq_ignore_ascii_case(name, "pipfile.lock")
        || eq_ignore_ascii_case(name, "pnpm-lock.yaml")
        || eq_ignore_ascii_case(name, "podfile.lock")
        || eq_ignore_ascii_case(name, "poetry.lock")
        || eq_ignore_ascii_case(name, "uv.lock")
        || eq_ignore_ascii_case(name, "yarn.lock")
}

/// Names of key configuration files.
pub open spec fn is_key_config_name(name: Seq<char>) -> bool {
    ||| same_folded(name, ".gitignore"@)
    ||| same_folded(name, ".swiftformat"@)
    ||| same_folded(name, ".swiftlint.yml"@)
    ||| same_folded(name, ".vaporignore"@)
    ||| same_folded(name, "cargo.toml"@)
    ||| same_folded(name, "dockerfile"@)
    ||| same_folded(name, "info.plist"@)
    ||| same_folded(name, "justfile"@)
    ||| same_folded(name, "makefile"@)
    ||| same_folded(name, "package.json"@)
    ||| same_folded(name, "tsconfig.json"@)
    ||| same_folded(name, "vapor.json"@)
}

fn key_config_name(name: &str) -> (r: bool)
    ensures
        r == is_key_config_name(name@),
{
    eq_ignore_ascii_case(name, ".gitignore")
        || eq_ignore_ascii_case(name, ".swiftformat")
        || eq_ignore_ascii_case(name, ".swiftlint.yml")
        || eq_ignore_ascii_case(name, ".vaporignore")
        || eq_ignore_ascii_case(name, "cargo.toml")
        || eq_ignore_ascii_case(name, "dockerfile")
        || eq_ignore_ascii_case(name, "info.plist")
        || eq_ignore_ascii_case(name, "justfile")
        || eq_ignore_ascii_case(name, "makefile")
        || eq_ignore_ascii_case(name, "package.json")
        || eq_ignore_ascii_case(name, "tsconfig.json")
        || eq_ignore_ascii_case(name, "vapor.json")
}

/// Extensions of configuration files.
pub open spec fn is_config_extension(name: Seq<char>) -> bool {
    ||| same_folded(name, "cfg"@)
    ||| same_folded(name, "conf"@)
    ||| same_folded(name, "ini"@)
    ||| same_folded(name, "json"@)
    ||| same_folded(name, "plist"@)
    ||| same_folded(name, "toml"@)
    ||| same_folded(name, "yaml"@)
    ||| same_folded(name, "yml"@)
}

fn config_extension(name: &str) -> (r: bool)
    ensures
        r == is_config_extension(name@),
{
    eq_ignore_ascii_case(name, "cfg")
        || eq_ignore_ascii_case(name, "conf")
        || eq_ignore_ascii_case(name, "ini")
        || eq_ignore_ascii_case(name, "json")
        || eq_ignore_ascii_case(name, "plist")
        || eq_ignore_ascii_case(name, "toml")
        || eq_ignore_ascii_case(name, "yaml")
        || eq_ignore_ascii_case(name, "yml")
}

/// Extensions of code and text files.
pub open spec fn is_code_extension(name: Seq<char>) -> bool {
    ||| same_folded(name, "bash"@)
    ||| same_folded(name, "c"@)
    ||| same_folded(name, "cc"@)
    ||| same_folded(name, "cpp"@)
    ||| same_folded(name, "css"@)
    ||| same_folded(name, "csv"@)
    ||| same_folded(name, "cxx"@)
    ||| same_folded(name, "go"@)
    ||| same_folded(name, "h"@)
    ||| same_folded(name, "hh"@)
    ||| same_folded(name, "hpp"@)
    ||| same_folded(name, "html"@)
    ||| same_folded(name, "hxx"@)
    ||| same_folded(name, "java"@)
    ||| same_folded(name, "js"@)
    ||| same_folded(name, "jsx"@)
    ||| same_folded(name, "kt"@)
    ||| same_folded(name, "kts"@)
    ||| same_folded(name, "less"@)
    ||| same_folded(name, "m"@)
    ||| same_folded(name, "md"@)
    ||| same_folded(name, "mm"@)
    ||| same_folded(name, "php"@)
    ||| same_folded(name, "proto"@)
    ||| same_folded(name, "py"@)
    ||| same_folded(name, "rb"@)
    ||| same_folded(name, "rs"@)
    ||| same_folded(name, "sass"@)
    ||| same_folded(name, "scala"@)
    ||| same_folded(name, "scss"@)
    ||| same_folded(name, "sh"@)
    ||| same_folded(name, "sql"@)
    ||| same_folded(name, "swift"@)
    ||| same_folded(name, "svelte"@)
    ||| same_folded(name, "svg"@)
    ||| same_folded(name, "ts"@)
    ||| same_folded(name, "tsx"@)
    ||| same_folded(name, "txt"@)
    ||| same_folded(name, "xml"@)
    ||| same_folded(name, "zsh"@)
}

fn code_extension(name: &str) -> (r: bool)
    ensures
        r == is_code_extension(name@),
{
    eq_ignore_ascii_case(name, "bash")
        || eq_ignore_ascii_case(name, "c")
        || eq_ignore_ascii_case(name, "cc")
        || eq_ignore_ascii_case(name, "cpp")
        || eq_ignore_ascii_case(name, "css")
        || eq_ignore_ascii_case(name, "csv")
        || eq_ignore_ascii_case(name, "cxx")
        || eq_ignore_ascii_case(name, "go")
        || eq_ignore_ascii_case(name, "h")
        || eq_ignore_ascii_case(name, "hh")
        || eq_ignore_ascii_case(name, "hpp")
        || eq_ignore_ascii_case(name, "html")
        || eq_ignore_ascii_case(name, "hxx")
        || eq_ignore_ascii_case(name, "java")
        || eq_ignore_ascii_case(name, "js")
        || eq_ignore_ascii_case(name, "jsx")
        || eq_ignore_ascii_case(name, "kt")
        || eq_ignore_ascii_case(name, "kts")
        || eq_ignore_ascii_case(name, "less")
        || eq_ignore_ascii_case(name, "m")
        || eq_ignore_ascii_case(name, "md")
        || eq_ignore_ascii_case(name, "mm")
        || eq_ignore_ascii_case(name, "php")
        || eq_ignore_ascii_case(name, "proto")
        || eq_ignore_ascii_case(name, "py")
        || eq_ignore_ascii_case(name, "rb")
        || eq_ignore_ascii_case(name, "rs")
        || eq_ignore_ascii_case(name, "sass")
        || eq_ignore_ascii_case(name, "scala")
        || eq_ignore_ascii_case(name, "scss")
        || eq_ignore_ascii_case(name, "sh")
        || eq_ignore_ascii_case(name, "sql")
        || eq_ignore_ascii_case(name, "swift")
        || eq_ignore_ascii_case(name, "svelte")
        || eq_ignore_ascii_case(name, "svg")
        || eq_ignore_ascii_case(name, "ts")
        || eq_ignore_ascii_case(name, "tsx")
        || eq_ignore_ascii_case(name, "txt")
        || eq_ignore_ascii_case(name, "xml")
        || eq_ignore_ascii_case(name, "zsh")
}

/// Extensions of documents and images.
pub open spec fn is_document_extension(name: Seq<char>) -> bool {
    ||| same_folded(name, "doc"@)
    ||| same_folded(name, "docx"@)
    ||| same_folded(name, "key"@)
    ||| same_folded(name, "numbers"@)
    ||| same_folded(name, "odp"@)
    ||| same_folded(name, "ods"@)
    ||| same_folded(name, "odt"@)
    ||| same_folded(name, "pages"@)
    ||| same_folded(name, "pdf"@)
    ||| same_folded(name, "ppt"@)
    ||| same_folded(name, "pptx"@)
    ||| same_folded(name, "rtf"@)
    ||| same_folded(name, "xls"@)
    ||| same_folded(name, "xlsx"@)
    ||| same_folded(name, "bmp"@)
    ||| same_folded(name, "gif"@)
    ||| same_folded(name, "heic"@)
    ||| same_folded(name, "heif"@)
    ||| same_folded(name, "jpeg"@)
    ||| same_folded(name, "jpg"@)
    ||| same_folded(name, "png"@)
    ||| same_folded(name, "tif"@)
    ||| same_folded(name, "tiff"@)
    ||| same_folded(name, "webp"@)
}

fn document_extension(name: &str) -> (r: bool)
    ensures
        r == is_document_extension(name@),
{
    eq_ignore_ascii_case(name, "doc")
        || eq_ignore_ascii_case(name, "docx")
        || eq_ignore_ascii_case(name, "key")
        || eq_ignore_ascii_case(name, "numbers")
        || eq_ignore_ascii_case(name, "odp")
        || eq_ignore_ascii_case(name, "ods")
        || eq_ignore_ascii_case(name, "odt")
        || eq_ignore_ascii_case(name, "pages")
        || eq_ignore_ascii_case(name, "pdf")
        || eq_ignore_ascii_case(name, "ppt")
        || eq_ignore_ascii_case(name, "pptx")
        || eq_ignore_ascii_case(name, "rtf")
        || eq_ignore_ascii_case(name, "xls")
        || eq_ignore_ascii_case(name, "xlsx")
        || eq_ignore_ascii_case(name, "bmp")
        || eq_ignore_ascii_case(name, "gif")
        || eq_ignore_ascii_case(name, "heic")
        || eq_ignore_ascii_case(name, "heif")
        || eq_ignore_ascii_case(name, "jpeg")
        || eq_ignore_ascii_case(name, "jpg")
        || eq_ignore_ascii_case(name, "png")
        || eq_ignore_ascii_case(name, "tif")
        || eq_ignore_ascii_case(name, "tiff")
        || eq_ignore_ascii_case(name, "webp")
}

/// The class of a path: lockfiles before key configurations, those before code
/// and text, those before documents.
pub open spec fn class_of(path: Seq<Part>) -> DebounceClass {
    match file_name_of(path) {
        None => DebounceClass::Other,
        Some(name) => {
            let extension = extension_of(name);
            if is_lockfile_name(name) || (extension matches Some(e) && same_folded(e, "lock"@)) {
                DebounceClass::Lockfile
            } else if begins_with(ascii_folded(name), ".env"@) || is_key_config_name(name) || (
            extension matches Some(e) && is_config_extension(e)) {
                DebounceClass::KeyConfig
            } else if extension matches Some(e) && is_code_extension(e) {
                DebounceClass::CodeText
            } else if extension matches Some(e) && is_document_extension(e) {
                DebounceClass::Document
            } else {
                DebounceClass::Other
            }
        },
    }
}

fn classify(path: &FsPath) -> (r: DebounceClass)
    ensures
        r == class_of(path@),
{
    let name = match path.file_name() {
        Some(name) => name,
        None => {
            return DebounceClass::Other;
        },
    };
    let extension = path.extension();
    let in_lock = match &extension {
        Some(e) => eq_ignore_ascii_case(e.as_str(), "lock"),
        None => false,
    };
    if in_lock || lockfile_name(name.as_str()) {
        return DebounceClass::Lockfile;
    }
    let in_config = match &extension {
        Some(e) => config_extension(e.as_str()),
        None => false,
    };
    if in_config || key_config_name(name.as_str()) || text_starts_with(
        ascii_lowercase(name.as_str()).as_str(),
        ".env",
    ) {
        return DebounceClass::KeyConfig;
    }
    match &extension {
        Some(e) => if code_extension(e.as_str()) {
            DebounceClass::CodeText
        } else if document_extension(e.as_str()) {
            DebounceClass::Document
        } else {
            DebounceClass::Other
        },
        None => DebounceClass::Other,
    }
}

/// Quiet windows by class, all within two bounds.
#[derive(Clone, Copy, Debug, PartialEq, Eq)]
pub struct DebounceWindows {
    minimum: Duration,
    maximum: Duration,
    key_config: Duration,
    code_text: Duration,
    document: Duration,
    lockfile: Duration,
    other: Duration,
}

/// `n` moved into the bounds `a` and `b`, whichever is lower.
pub open spec fn clamped(n: int, a: int, b: int) -> int {
    let (low, high) = if a <= b {
        (a, b)
    } else {
        (b, a)
    };
    if n < low {
        low
    } else if n > high {
        high
    } else {
        n
    }
}

fn clamp_duration(duration: Duration, minimum: Duration, maximum: Duration) -> (r: Duration)
    requires
        minimum.nanos <= maximum.nanos,
    ensures
        r.nanos == clamped(duration.nanos as int, minimum.nanos as int, maximum.nanos as int),
{
    if duration.nanos < minimum.nanos {
        minimum
    } else if duration.nanos > maximum.nanos {
        maximum
    } else {
        duration
    }
}

impl DebounceWindows {
    /// The quiet window of a class.
    pub closed spec fn window(&self, class: DebounceClass) -> Duration {
        match class {
            DebounceClass::KeyConfig => self.key_config,
            DebounceClass::CodeText => self.code_text,
            DebounceClass::Document => self.document,
            DebounceClass::Lockfile => self.lockfile,
            DebounceClass::Other => self.other,
        }
    }

    /// The shortest a window may be.
    pub closed spec fn shortest(&self) -> Duration {
        self.minimum
    }

    /// The longest a window may be.
    pub closed spec fn longest(&self) -> Duration {
        self.maximum
    }

    /// Windows in milliseconds, moved into the bounds; swapped bounds are
    /// swapped back.
    pub fn from_millis(
        minimum_millis: u64,
        maximum_millis: u64,
        key_config_millis: u64,
        code_text_millis: u64,
        document_millis: u64,
        lockfile_millis: u64,
        other_millis: u64,
    ) -> (r: DebounceWindows)
        ensures
            forall|class: DebounceClass|
                (#[trigger] r.window(class)).nanos == NANOS_PER_MILLI * clamped(
                    match class {
                        DebounceClass::KeyConfig => key_config_millis,
                        DebounceClass::CodeText => code_text_millis,
                        DebounceClass::Document => document_millis,
                        DebounceClass::Lockfile => lockfile_millis,
                        DebounceClass::Other => other_millis,
                    } as int,
                    minimum_millis as int,
                    maximum_millis as int,
                ),
            r.shortest().nanos == NANOS_PER_MILLI * if minimum_millis <= maximum_millis {
                minimum_millis
            } else {
                maximum_millis
            },
            r.longest().nanos == NANOS_PER_MILLI * if minimum_millis <= maximum_millis {
                maximum_millis
            } else {
                minimum_millis
            },
    {
        let a = Duration::from_millis(minimum_millis);
        let b = Duration::from_millis(maximum_millis);
        let (minimum, maximum) = if a.nanos <= b.nanos {
            (a, b)
        } else {
            (b, a)
        };
        DebounceWindows {
            minimum,
            maximum,
            key_config: clamp_duration(Duration::from_millis(key_config_millis), minimum, maximum),
            code_text: clamp_duration(Duration::from_millis(code_text_millis), minimum, maximum),
            document: clamp_duration(Duration::from_millis(document_millis), minimum, maximum),
            lockfile: clamp_duration(Duration::from_millis(lockfile_millis), minimum, maximum),
            other: clamp_duration(Duration::from_millis(other_millis), minimum, maximum),
        }
    }

    /// The class of a path and its quiet window.
    pub fn classify_path(&self, path: &FsPath) -> (r: (DebounceClass, Duration))
        ensures
            r.0 == class_of(path@),
            r.1 == self.window(r.0),
    {
        let class = classify(path);
        let window = match class {
            DebounceClass::KeyConfig => self.key_config,
            DebounceClass::CodeText => self.code_text,
            DebounceClass::Document => self.document,
            DebounceClass::Lockfile => self.lockfile,
            DebounceClass::Other => self.other,
        };
        (class, window)
    }
}

/// What [`DebounceWindows::from_millis`] makes of milliseconds.
pub open spec fn windows_from(
    r: DebounceWindows,
    a: u64,
    b: u64,
    key_config: u64,
    code_text: u64,
    document: u64,
    lockfile: u64,
    other: u64,
) -> bool {
    call_ensures(
        DebounceWindows::from_millis,
        (a, b, key_config, code_text, document, lockfile, other),
        r,
    )
}

/// The order the bounds are given in does not matter: the windows are the
/// same. Each lies within the bounds, and is the one given where that does.
pub proof fn law_bounds_come_in_any_order(
    first: DebounceWindows,
    second: DebounceWindows,
    a: u64,
    b: u64,
    key_config: u64,
    code_text: u64,
    document: u64,
    lockfile: u64,
    other: u64,
    class: DebounceClass,
)
    requires
        windows_from(first, a, b, key_config, code_text, document, lockfile, other),
        windows_from(second, b, a, key_config, code_text, document, lockfile, other),
    ensures
        first == second,
        first.shortest().nanos <= first.window(class).nanos <= first.longest().nanos,
        ({
            let given = match class {
                DebounceClass::KeyConfig => key_config,
                DebounceClass::CodeText => code_text,
                DebounceClass::Document => document,
                DebounceClass::Lockfile => lockfile,
                DebounceClass::Other => other,
            };
            first.shortest().nanos <= given * NANOS_PER_MILLI <= first.longest().nanos
                ==> first.window(class).nanos == given * NANOS_PER_MILLI
        }),
{
    assert(first.window(DebounceClass::KeyConfig) == second.window(DebounceClass::KeyConfig));
    assert(first.window(DebounceClass::CodeText) == second.window(DebounceClass::CodeText));
    assert(first.window(DebounceClass::Document) == second.window(DebounceClass::Document));
    assert(first.window(DebounceClass::Lockfile) == second.window(DebounceClass::Lockfile));
    assert(first.window(DebounceClass::Other) == second.window(DebounceClass::Other));
}

/// The windows of a daemon that was configured with none of its own.
pub open spec fn usual_windows(windows: DebounceWindows) -> bool {
    &&& windows.window(DebounceClass::KeyConfig).nanos == KEY_CONFIG_DEBOUNCE_WINDOW_MILLIS
        * NANOS_PER_MILLI
    &&& windows.window(DebounceClass::CodeText).nanos == CODE_TEXT_DEBOUNCE_WINDOW_MILLIS
        * NANOS_PER_MILLI
    &&& windows.window(DebounceClass::Document).nanos == DOCUMENT_DEBOUNCE_WINDOW_MILLIS
        * NANOS_PER_MILLI
    &&& windows.window(DebounceClass::Lockfile).nanos == LOCKFILE_DEBOUNCE_WINDOW_MILLIS
        * NANOS_PER_MILLI
    &&& windows.window(DebounceClass::Other).nanos == DEFAULT_DEBOUNCE_WINDOW_MILLIS
        * NANOS_PER_MILLI
}

impl Default for DebounceWindows {
    fn default() -> (r: DebounceWindows)
        ensures
            usual_windows(r),
    {
        DebounceWindows::from_millis(
            MIN_DEBOUNCE_WINDOW_MILLIS,
            MAX_DEBOUNCE_WINDOW_MILLIS,
            KEY_CONFIG_DEBOUNCE_WINDOW_MILLIS,
            CODE_TEXT_DEBOUNCE_WINDOW_MILLIS,
            DOCUMENT_DEBOUNCE_WINDOW_MILLIS,
            LOCKFILE_DEBOUNCE_WINDOW_MILLIS,
            DEFAULT_DEBOUNCE_WINDOW_MILLIS,
        )
    }
}

/// An event whose path has been quiet for its window.
#[derive(Debug, PartialEq, Eq)]
pub struct StabilizedEvent {
    pub path: FsPath,
    pub first_observed_at: SystemTime,
    pub last_observed_at: SystemTime,
    pub last_event_kind: FsEventKind,
    pub flags: PendingEventFlags,
    pub burst_count: usize,
    pub debounce_class: DebounceClass,
    pub quiet_window: Duration,
}

/// The class and window of an event that is stable at `now`. A clock that was
/// set back keeps an event pending.
pub open spec fn stable(windows: DebounceWindows, event: EventView, now: SystemTime) -> Option<
    (DebounceClass, Duration),
> {
    let class = class_of(event.path);
    let window = windows.window(class);
    if now.nanos - event.last_observed_at.nanos >= window.nanos && now.nanos
        >= event.last_observed_at.nanos {
        Some((class, window))
    } else {
        None
    }
}

/// The event a stable record is handed on as.
pub open spec fn built_from(
    event: StabilizedEvent,
    record: EventView,
    class: DebounceClass,
    window: Duration,
) -> bool {
    &&& event.path@ == record.path
    &&& event.first_observed_at == record.first_observed_at
    &&& event.last_observed_at == record.last_observed_at
    &&& event.last_event_kind == record.last_event_kind
    &&& event.flags == record.flags
    &&& event.burst_count == record.burst_count
    &&& event.debounce_class == class
    &&& event.quiet_window == window
}

/// Hands events on once they are stable, at most once per tick interval.
#[derive(Debug)]
pub struct DebounceLoop<C: Clock> {
    tick_interval: Duration,
    windows: DebounceWindows,
    last_tick_at: Option<SystemTime>,
    last_tick_inst: Option<Instant>,
    clock: C,
}

pub open spec fn tick_due(last: Option<Instant>, now: Instant, interval: Duration) -> bool {
    match last {
        Some(last) => interval.nanos == 0 || now.nanos - last.nanos >= interval.nanos,
        None => true,
    }
}

/// What a tick at `now` makes of the pending events: the stable ones leave and
/// are handed on in the order of their paths.
pub open spec fn ticked(
    windows: DebounceWindows,
    now: SystemTime,
    before: MapsView,
    after: MapsView,
    events: Seq<StabilizedEvent>,
) -> bool {
    &&& after == (MapsView { events: after.events, ..before })
    &&& forall|p: Seq<Part>| #[trigger]
        after.events.contains_key(p) <==> before.events.contains_key(p) && stable(
            windows,
            before.events[p],
            now,
        ) is None
    &&& forall|p: Seq<Part>| #[trigger]
        after.events.contains_key(p) ==> after.events[p] == before.events[p]
    &&& strictly_ordered(event_paths_of(events))
    &&& forall|i: int|
        0 <= i < events.len() ==> handed_on(windows, now, before, #[trigger] events[i])
    &&& forall|p: Seq<Part>| #[trigger]
        before.events.contains_key(p) && stable(windows, before.events[p], now) is Some
            ==> event_paths_of(events).contains(p)
}

pub open spec fn event_paths_of(events: Seq<StabilizedEvent>) -> Seq<Seq<Part>> {
    events.map_values(|e: StabilizedEvent| e.path@)
}

/// The event is a stable one of `before`.
pub open spec fn handed_on(
    windows: DebounceWindows,
    now: SystemTime,
    before: MapsView,
    event: StabilizedEvent,
) -> bool {
    &&& before.events.contains_key(event.path@)
    &&& stable(windows, before.events[event.path@], now) matches Some((class, window))
    &&& built_from(event, before.events[event.path@], class, window)
}

impl DebounceLoop<SystemClock> {
    /// A loop with the default windows on the system clock.
    pub fn new() -> (r: DebounceLoop<SystemClock>)
        ensures
            r.interval().nanos == DEBOUNCE_TICK_MILLIS * NANOS_PER_MILLI,
            usual_windows(r.quiet_windows()),
            r.ticked_at() is None,
            r.ticked_inst() is None,
    {
        DebounceLoop::with_windows(DebounceWindows::default())
    }

    /// A loop on the system clock.
    pub fn with_windows(windows: DebounceWindows) -> (r: DebounceLoop<SystemClock>)
        ensures
            r.interval().nanos == DEBOUNCE_TICK_MILLIS * NANOS_PER_MILLI,
            r.quiet_windows() == windows,
            r.ticked_at() is None,
            r.ticked_inst() is None,
    {
        DebounceLoop::with_windows_and_clock(windows, SystemClock::new())
    }
}

impl Default for DebounceLoop<SystemClock> {
    fn default() -> (r: DebounceLoop<SystemClock>)
        ensures
            r.interval().nanos == DEBOUNCE_TICK_MILLIS * NANOS_PER_MILLI,
            usual_windows(r.quiet_windows()),
            r.ticked_at() is None,
            r.ticked_inst() is None,
    {
        DebounceLoop::new()
    }
}

impl<C: Clock> DebounceLoop<C> {
    pub closed spec fn interval(&self) -> Duration {
        self.tick_interval
    }

    pub closed spec fn quiet_windows(&self) -> DebounceWindows {
        self.windows
    }

    pub closed spec fn ticked_at(&self) -> Option<SystemTime> {
        self.last_tick_at
    }

    pub closed spec fn ticked_inst(&self) -> Option<Instant> {
        self.last_tick_inst
    }

    pub closed spec fn source(&self) -> C {
        self.clock
    }

    pub fn with_windows_and_clock(windows: DebounceWindows, clock: C) -> (r: DebounceLoop<C>)
        ensures
            r.interval().nanos == DEBOUNCE_TICK_MILLIS * NANOS_PER_MILLI,
            r.quiet_windows() == windows,
            r.source() == clock,
            r.ticked_at() is None,
            r.ticked_inst() is None,
    {
        DebounceLoop {
            tick_interval: Duration::from_millis(DEBOUNCE_TICK_MILLIS),
            windows,
            last_tick_at: None,
            last_tick_inst: None,
            clock,
        }
    }

    pub fn tick_interval(&self) -> (r: Duration)
        ensures
            r == self.interval(),
    {
        self.tick_interval
    }

    pub fn last_tick_at(&self) -> (r: Option<SystemTime>)
        ensures
            r == self.ticked_at(),
    {
        self.last_tick_at
    }

    pub fn last_tick_inst(&self) -> (r: Option<Instant>)
        ensures
            r == self.ticked_inst(),
    {
        self.last_tick_inst
    }

    pub fn windows(&self) -> (r: &DebounceWindows)
        ensures
            *r == self.quiet_windows(),
    {
        &self.windows
    }

    /// The clock, to set a manual one.
    pub fn clock_mut(&mut self) -> (r: &mut C)
        ensures
            *r == old(self).source(),
            *final(r) == final(self).source(),
            final(self).interval() == old(self).interval(),
            final(self).quiet_windows() == old(self).quiet_windows(),
            final(self).ticked_at() == old(self).ticked_at(),
            final(self).ticked_inst() == old(self).ticked_inst(),
    {
        &mut self.clock
    }

    /// Whether a tick is due. Only monotonic time counts, so setting the wall
    /// clock back makes no extra tick.
    pub fn tick_is_due(&self, now_inst: Instant) -> (r: bool)
        ensures
            r == tick_due(self.ticked_inst(), now_inst, self.interval()),
    {
        match self.last_tick_inst {
            Some(last) => now_inst.saturating_duration_since(last).nanos
                >= self.tick_interval.nanos,
            None => true,
        }
    }

    /// The class and window of a record that is stable at `now`.
    pub fn classify_stable_record(&self, record: &PendingEventRecord, now: SystemTime) -> (r:
        Option<(DebounceClass, Duration)>)
        ensures
            r == stable(self.quiet_windows(), record@, now),
    {
        let (class, window) = self.windows.classify_path(&record.path);
        match now.duration_since(record.last_observed_at) {
            Some(elapsed) => if elapsed.nanos >= window.nanos {
                Some((class, window))
            } else {
                None
            },
            None => None,
        }
    }

    /// Runs a tick at the given readings of both clocks.
    pub fn run_tick_at(
        &mut self,
        maps: &mut BoundedEventIntentMaps,
        now: SystemTime,
        now_inst: Instant,
    ) -> (r: Vec<StabilizedEvent>)
        requires
            old(maps).wf(),
        ensures
            final(maps).wf(),
            final(self).interval() == old(self).interval(),
            final(self).quiet_windows() == old(self).quiet_windows(),
            final(self).source() == old(self).source(),
            if tick_due(old(self).ticked_inst(), now_inst, old(self).interval()) {
                &&& final(self).ticked_at() == Some(now)
                &&& final(self).ticked_inst() == Some(now_inst)
                &&& ticked(old(self).quiet_windows(), now, old(maps)@, final(maps)@, r@)
            } else {
                &&& r@.len() == 0
                &&& final(maps)@ == old(maps)@
                &&& final(self).ticked_at() == old(self).ticked_at()
                &&& final(self).ticked_inst() == old(self).ticked_inst()
            },
    {
        if !self.tick_is_due(now_inst) {
            return Vec::new();
        }
        self.last_tick_at = Some(now);
        self.last_tick_inst = Some(now_inst);
        let ghost before = maps@;
        let windows = self.windows;
        let this = &*self;
        let select = |record: &PendingEventRecord| -> (r: Option<(DebounceClass, Duration)>)
            ensures
                r == stable(windows, record@, now),
            { this.classify_stable_record(record, now) };
        let drained = maps.drain_ready_events_with(select);
        let ghost all = drained@;
        let mut events: Vec<StabilizedEvent> = Vec::new();
        for item in rows: drained
            invariant
                rows.seq() == all,
                events@.len() == rows.index(),
                forall|k: int|
                    0 <= k < events@.len() ==> built_from(
                        #[trigger] events@[k],
                        all[k].0@,
                        all[k].1.0,
                        all[k].1.1,
                    ),
        {
            let (record, (class, window)) = item;
            events.push(build_stabilized_event(record, class, window));
        }
        proof {
            assert(event_paths_of(events@) =~= drained_paths(all)) by {
                assert forall|k: int| 0 <= k < events@.len() implies #[trigger] event_paths_of(
                    events@,
                )[k] == drained_paths(all)[k] by {
                    assert(built_from(events@[k], all[k].0@, all[k].1.0, all[k].1.1));
                }
            }
            assert forall|k: int| 0 <= k < events@.len() implies handed_on(
                windows,
                now,
                before,
                #[trigger] events@[k],
            ) by {
                assert(call_ensures(select, (&all[k].0,), Some(all[k].1)));
                assert(stable(windows, all[k].0@, now) == Some(all[k].1));
                assert(built_from(events@[k], all[k].0@, all[k].1.0, all[k].1.1));
            }
            assert forall|p: Seq<Part>| #[trigger] maps@.events.contains_key(p) <==> (
            before.events.contains_key(p) && stable(windows, before.events[p], now) is None) by {
                if maps@.events.contains_key(p) {
                    let record = choose|record: PendingEventRecord|
                        record@ == before.events[p] && call_ensures(select, (&record,), None);
                    assert(stable(windows, record@, now) is None);
                }
                if before.events.contains_key(p) && drained_paths(all).contains(p) {
                    let k = drained_paths(all).index_of(p);
                    assert(all[k].0.path@ == p);
                    assert(call_ensures(select, (&all[k].0,), Some(all[k].1)));
                }
            }
            assert forall|p: Seq<Part>| #[trigger]
                before.events.contains_key(p) && stable(
                    windows,
                    before.events[p],
                    now,
                ) is Some implies event_paths_of(events@).contains(p) by {
                assert(!maps@.events.contains_key(p));
            }
        }
        events
    }

    /// Runs a tick, if one is due by the clock.
    pub fn run_tick(&mut self, maps: &mut BoundedEventIntentMaps, now: SystemTime) -> (r: Vec<
        StabilizedEvent,
    >)
        requires
            old(maps).wf(),
        ensures
            final(maps).wf(),
            exists|now_inst: Instant|
                {
                    &&& #[trigger] old(self).source().may_read(now_inst)
                    &&& if tick_due(old(self).ticked_inst(), now_inst, old(self).interval()) {
                        &&& final(self).ticked_at() == Some(now)
                        &&& final(self).ticked_inst() == Some(now_inst)
                        &&& ticked(old(self).quiet_windows(), now, old(maps)@, final(maps)@, r@)
                    } else {
                        &&& r@.len() == 0
                        &&& final(maps)@ == old(maps)@
                        &&& final(self).ticked_at() == old(self).ticked_at()
                        &&& final(self).ticked_inst() == old(self).ticked_inst()
                    }
                },
            final(self).interval() == old(self).interval(),
            final(self).quiet_windows() == old(self).quiet_windows(),
            final(self).source() == old(self).source(),
    {
        let now_inst = self.clock.now();
        assert(old(self).source().may_read(now_inst));
        self.run_tick_at(maps, now, now_inst)
    }

    /// Runs a tick on a recorder's state, if one is due by the clock.
    pub fn run_tick_for_recorder(&mut self, recorder: &mut BoundedFsEventRecorder, now: SystemTime)
        -> (r: Vec<StabilizedEvent>)
        requires
            old(recorder).state().wf(),
        ensures
            final(recorder).state().wf(),
            final(recorder).errors() == old(recorder).errors(),
            exists|now_inst: Instant|
                {
                    &&& #[trigger] old(self).source().may_read(now_inst)
                    &&& if tick_due(old(self).ticked_inst(), now_inst, old(self).interval()) {
                        &&& final(self).ticked_at() == Some(now)
                        &&& final(self).ticked_inst() == Some(now_inst)
                        &&& ticked(
                            old(self).quiet_windows(),
                            now,
                            old(recorder).state()@,
                            final(recorder).state()@,
                            r@,
                        )
                    } else {
                        &&& r@.len() == 0
                        &&& final(recorder).state()@ == old(recorder).state()@
                        &&& final(self).ticked_at() == old(self).ticked_at()
                        &&& final(self).ticked_inst() == old(self).ticked_inst()
                    }
                },
            final(self).interval() == old(self).interval(),
            final(self).quiet_windows() == old(self).quiet_windows(),
            final(self).source() == old(self).source(),
    {
        let now_inst = self.clock.now();
        assert(old(self).source().may_read(now_inst));
        self.run_tick_at(recorder.with_mut_state(), now, now_inst)
    }
}

fn build_stabilized_event(record: PendingEventRecord, class: DebounceClass, window: Duration) -> (r:
    StabilizedEvent)
    ensures
        built_from(r, record@, class, window),
{
    StabilizedEvent {
        path: record.path,
        first_observed_at: record.first_observed_at,
        last_observed_at: record.last_observed_at,
        last_event_kind: record.last_event_kind,
        flags: record.flags,
        burst_count: record.burst_count,
        debounce_class: class,
        quiet_window: window,
    }
}

/// Setting the wall clock back never flushes an event early: an event that is
/// not stable at some time is not stable at any earlier one.
pub proof fn law_rewinds_only_delay(
    windows: DebounceWindows,
    event: EventView,
    now: SystemTime,
    earlier: SystemTime,
)
    requires
        earlier.nanos <= now.nanos,
        stable(windows, event, now) is None,
    ensures
        stable(windows, event, earlier) is None,
{
}

// ---------------------------------------------------------------------------
// What the debounce is for
// ---------------------------------------------------------------------------

/// An event is handed on exactly when its path has been quiet for the window
/// of its class: what counts is the time since the last event on the path,
/// never since the first.
pub proof fn law_a_path_has_to_be_quiet<C: Clock>(
    debounce: DebounceLoop<C>,
    record: PendingEventRecord,
    now: SystemTime,
    r: Option<(DebounceClass, Duration)>,
)
    requires
        call_ensures(DebounceLoop::<C>::classify_stable_record, (&debounce, &record, now), r),
    ensures
        r matches Some((class, window)) ==> window == debounce.quiet_windows().window(class)
            && record.last_observed_at.nanos + window.nanos <= now.nanos,
        r is None ==> exists|class: DebounceClass|
            now.nanos < record.last_observed_at.nanos + (
            #[trigger] debounce.quiet_windows().window(class)).nanos || now.nanos
                < record.last_observed_at.nanos,
{
    let class = class_of(record@.path);
    assert(debounce.quiet_windows().window(class) == debounce.quiet_windows().window(class));
}

/// One more event on a path puts it off: whatever its first event was, a
/// record is pending at every time before its last event plus the window it is
/// handed on with later.
pub proof fn law_another_event_puts_a_path_off<C: Clock>(
    debounce: DebounceLoop<C>,
    record: PendingEventRecord,
    later: SystemTime,
    earlier: SystemTime,
    class: DebounceClass,
    window: Duration,
    r: Option<(DebounceClass, Duration)>,
)
    requires
        call_ensures(
            DebounceLoop::<C>::classify_stable_record,
            (&debounce, &record, later),
            Some((class, window)),
        ),
        call_ensures(DebounceLoop::<C>::classify_stable_record, (&debounce, &record, earlier), r),
    ensures
        r is Some <==> earlier.nanos >= record.last_observed_at.nanos + window.nanos,
        r is Some ==> r == Some((class, window)),
{
}

/// Two records of one path with the same last event are handed on at the same
/// times, whenever their first events were.
pub proof fn law_the_first_event_does_not_count<C: Clock>(
    debounce: DebounceLoop<C>,
    a: PendingEventRecord,
    b: PendingEventRecord,
    now: SystemTime,
    first: Option<(DebounceClass, Duration)>,
    second: Option<(DebounceClass, Duration)>,
)
    requires
        a.path@ == b.path@,
        a.last_observed_at == b.last_observed_at,
        call_ensures(DebounceLoop::<C>::classify_stable_record, (&debounce, &a, now), first),
        call_ensures(DebounceLoop::<C>::classify_stable_record, (&debounce, &b, now), second),
    ensures
        first == second,
{
}

/// A tick hands on every pending event whose path has been quiet for its
/// window and no other; what is not handed on stays pending, unchanged, and
/// nothing but events leaves.
pub proof fn law_a_tick_hands_on_quiet_paths<C: Clock>(
    debounce: &mut DebounceLoop<C>,
    maps: &mut BoundedEventIntentMaps,
    now: SystemTime,
    now_inst: Instant,
    r: Vec<StabilizedEvent>,
)
    requires
        call_ensures(DebounceLoop::<C>::run_tick_at, (debounce, maps, now, now_inst), r),
    ensures
        ({
            let before = old(maps)@.events;
            let after = final(maps)@.events;
            &&& forall|i: int|
                0 <= i < r@.len() ==> before.contains_key((#[trigger] r@[i]).path@)
                    && !after.contains_key(r@[i].path@) && r@[i].last_observed_at
                    == before[r@[i].path@].last_observed_at && r@[i].first_observed_at
                    == before[r@[i].path@].first_observed_at && r@[i].burst_count
                    == before[r@[i].path@].burst_count && r@[i].last_event_kind
                    == before[r@[i].path@].last_event_kind && r@[i].quiet_window == old(
                    debounce,
                ).quiet_windows().window(r@[i].debounce_class) && r@[i].last_observed_at.nanos
                    + r@[i].quiet_window.nanos <= now.nanos
            &&& forall|p: Seq<Part>| #[trigger]
                before.contains_key(p) && !after.contains_key(p) ==> exists|i: int|
                    0 <= i < r@.len() && (#[trigger] r@[i]).path@ == p
            &&& forall|p: Seq<Part>| #[trigger]
                after.contains_key(p) ==> before.contains_key(p) && after[p] == before[p]
            &&& final(maps)@.intents == old(maps)@.intents
        }),
{
    let before = old(maps)@.events;
    let after = final(maps)@.events;
    if tick_due(old(debounce).ticked_inst(), now_inst, old(debounce).interval()) {
        assert forall|i: int| 0 <= i < r@.len() implies before.contains_key(
            (#[trigger] r@[i]).path@,
        ) && !after.contains_key(r@[i].path@) by {
            assert(handed_on(old(debounce).quiet_windows(), now, old(maps)@, r@[i]));
        }
        assert forall|p: Seq<Part>| #[trigger]
            before.contains_key(p) && !after.contains_key(p) implies exists|i: int|
            0 <= i < r@.len() && (#[trigger] r@[i]).path@ == p by {
            assert(event_paths_of(r@).contains(p));
            let i = event_paths_of(r@).index_of(p);
            assert(r@[i].path@ == p);
        }
    }
}

/// A tick that comes before the interval is over does nothing; any later one
/// is a tick, and the first always is.
pub proof fn law_ticks_keep_their_distance<C: Clock>(
    debounce: DebounceLoop<C>,
    now_inst: Instant,
    due: bool,
)
    requires
        call_ensures(DebounceLoop::<C>::tick_is_due, (&debounce, now_inst), due),
    ensures
        debounce.ticked_inst() is None ==> due,
        debounce.ticked_inst() matches Some(last) ==> (due <==> debounce.interval().nanos == 0
            || now_inst.nanos >= last.nanos + debounce.interval().nanos),
{
}

/// The class of a path goes by its name up to the case of ASCII letters, and
/// by nothing else of the path.
pub proof fn law_the_name_decides_the_class(
    windows: DebounceWindows,
    a: FsPath,
    b: FsPath,
    first: (DebounceClass, Duration),
    second: (DebounceClass, Duration),
)
    requires
        call_ensures(DebounceWindows::classify_path, (&windows, &a), first),
        call_ensures(DebounceWindows::classify_path, (&windows, &b), second),
        file_name_of(a@) == file_name_of(b@),
    ensures
        first == second,
        first.1 == windows.window(first.0),
        file_name_of(a@) is None ==> first.0 == DebounceClass::Other,
{
}

/// The windows of a daemon that was configured with none of its own: key
/// configuration 0.8 s, code and text 1.2 s, documents 2 s, lockfiles 5 s, and
/// 4 s for everything else.
pub proof fn law_the_usual_windows(r: DebounceWindows)
    requires
        call_ensures(<DebounceWindows as Default>::default, (), r),
    ensures
        r.window(DebounceClass::KeyConfig).nanos == 800_000_000,
        r.window(DebounceClass::CodeText).nanos == 1_200_000_000,
        r.window(DebounceClass::Document).nanos == 2_000_000_000,
        r.window(DebounceClass::Lockfile).nanos == 5_000_000_000,
        r.window(DebounceClass::Other).nanos == 4_000_000_000,
{
}

/// Names of lock files, which package managers write.
pub open spec fn names_a_lockfile(name: Seq<char>) -> bool {
    ||| ascii_folded(name) == ascii_folded("bun.lock"@)
    ||| ascii_folded(name) == ascii_folded("bun.lockb"@)
    ||| ascii_folded(name) == ascii_folded("cargo.lock"@)
    ||| ascii_folded(name) == ascii_folded("composer.lock"@)
    ||| ascii_folded(name) == ascii_folded("gemfile.lock"@)
    ||| ascii_folded(name) == ascii_folded("package-lock.json"@)
    ||| ascii_folded(name) == ascii_folded("package.resolved"@)
    ||| ascii_folded(name) == ascii_folded("pipfile.lock"@)
    ||| ascii_folded(name) == ascii_folded("pnpm-lock.yaml"@)
    ||| ascii_folded(name) == ascii_folded("podfile.lock"@)
    ||| ascii_folded(name) == ascii_folded("poetry.lock"@)
    ||| ascii_folded(name) == ascii_folded("uv.lock"@)
    ||| ascii_folded(name) == ascii_folded("yarn.lock"@)
}

/// Names of files that configure a project.
pub open spec fn names_a_configuration(name: Seq<char>) -> bool {
    ||| ascii_folded(name) == ascii_folded(".gitignore"@)
    ||| ascii_folded(name) == ascii_folded(".swiftformat"@)
    ||| ascii_folded(name) == ascii_folded(".swiftlint.yml"@)
    ||| ascii_folded(name) == ascii_folded(".vaporignore"@)
    ||| ascii_folded(name) == ascii_folded("cargo.toml"@)
    ||| ascii_folded(name) == ascii_folded("dockerfile"@)
    ||| ascii_folded(name) == ascii_folded("info.plist"@)
    ||| ascii_folded(name) == ascii_folded("justfile"@)
    ||| ascii_folded(name) == ascii_folded("makefile"@)
    ||| ascii_folded(name) == ascii_folded("package.json"@)
    ||| ascii_folded(name) == ascii_folded("tsconfig.json"@)
    ||| ascii_folded(name) == ascii_folded("vapor.json"@)
}

pub open spec fn ends_a_configuration(extension: Seq<char>) -> bool {
    ||| ascii_folded(extension) == ascii_folded("cfg"@)
    ||| ascii_folded(extension) == ascii_folded("conf"@)
    ||| ascii_folded(extension) == ascii_folded("ini"@)
    ||| ascii_folded(extension) == ascii_folded("json"@)
    ||| ascii_folded(extension) == ascii_folded("plist"@)
    ||| ascii_folded(extension) == ascii_folded("toml"@)
    ||| ascii_folded(extension) == ascii_folded("yaml"@)
    ||| ascii_folded(extension) == ascii_folded("yml"@)
}

pub open spec fn ends_a_source(extension: Seq<char>) -> bool {
    ||| ascii_folded(extension) == ascii_folded("bash"@)
    ||| ascii_folded(extension) == ascii_folded("c"@)
    ||| ascii_folded(extension) == ascii_folded("cc"@)
    ||| ascii_folded(extension) == ascii_folded("cpp"@)
    ||| ascii_folded(extension) == ascii_folded("css"@)
    ||| ascii_folded(extension) == ascii_folded("csv"@)
    ||| ascii_folded(extension) == ascii_folded("cxx"@)
    ||| ascii_folded(extension) == ascii_folded("go"@)
    ||| ascii_folded(extension) == ascii_folded("h"@)
    ||| ascii_folded(extension) == ascii_folded("hh"@)
    ||| ascii_folded(extension) == ascii_folded("hpp"@)
    ||| ascii_folded(extension) == ascii_folded("html"@)
    ||| ascii_folded(extension) == ascii_folded("hxx"@)
    ||| ascii_folded(extension) == ascii_folded("java"@)
    ||| ascii_folded(extension) == ascii_folded("js"@)
    ||| ascii_folded(extension) == ascii_folded("jsx"@)
    ||| ascii_folded(extension) == ascii_folded("kt"@)
    ||| ascii_folded(extension) == ascii_folded("kts"@)
    ||| ascii_folded(extension) == ascii_folded("less"@)
    ||| ascii_folded(extension) == ascii_folded("m"@)
    ||| ascii_folded(extension) == ascii_folded("md"@)
    ||| ascii_folded(extension) == ascii_folded("mm"@)
    ||| ascii_folded(extension) == ascii_folded("php"@)
    ||| ascii_folded(extension) == ascii_folded("proto"@)
    ||| ascii_folded(extension) == ascii_folded("py"@)
    ||| ascii_folded(extension) == ascii_folded("rb"@)
    ||| ascii_folded(extension) == ascii_folded("rs"@)
    ||| ascii_folded(extension) == ascii_folded("sass"@)
    ||| ascii_folded(extension) == ascii_folded("scala"@)
    ||| ascii_folded(extension) == ascii_folded("scss"@)
    ||| ascii_folded(extension) == ascii_folded("sh"@)
    ||| ascii_folded(extension) == ascii_folded("sql"@)
    ||| ascii_folded(extension) == ascii_folded("swift"@)
    ||| ascii_folded(extension) == ascii_folded("svelte"@)
    ||| ascii_folded(extension) == ascii_folded("svg"@)
    ||| ascii_folded(extension) == ascii_folded("ts"@)
    ||| ascii_folded(extension) == ascii_folded("tsx"@)
    ||| ascii_folded(extension) == ascii_folded("txt"@)
    ||| ascii_folded(extension) == ascii_folded("xml"@)
    ||| ascii_folded(extension) == ascii_folded("zsh"@)
}

pub open spec fn ends_a_document(extension: Seq<char>) -> bool {
    ||| ascii_folded(extension) == ascii_folded("doc"@)
    ||| ascii_folded(extension) == ascii_folded("docx"@)
    ||| ascii_folded(extension) == ascii_folded("key"@)
    ||| ascii_folded(extension) == ascii_folded("numbers"@)
    ||| ascii_folded(extension) == ascii_folded("odp"@)
    ||| ascii_folded(extension) == ascii_folded("ods"@)
    ||| ascii_folded(extension) == ascii_folded("odt"@)
    ||| ascii_folded(extension) == ascii_folded("pages"@)
    ||| ascii_folded(extension) == ascii_folded("pdf"@)
    ||| ascii_folded(extension) == ascii_folded("ppt"@)
    ||| ascii_folded(extension) == ascii_folded("pptx"@)
    ||| ascii_folded(extension) == ascii_folded("rtf"@)
    ||| ascii_folded(extension) == ascii_folded("xls"@)
    ||| ascii_folded(extension) == ascii_folded("xlsx"@)
    ||| ascii_folded(extension) == ascii_folded("bmp"@)
    ||| ascii_folded(extension) == ascii_folded("gif"@)
    ||| ascii_folded(extension) == ascii_folded("heic"@)
    ||| ascii_folded(extension) == ascii_folded("heif"@)
    ||| ascii_folded(extension) == ascii_folded("jpeg"@)
    ||| ascii_folded(extension) == ascii_folded("jpg"@)
    ||| ascii_folded(extension) == ascii_folded("png"@)
    ||| ascii_folded(extension) == ascii_folded("tif"@)
    ||| ascii_folded(extension) == ascii_folded("tiff"@)
    ||| ascii_folded(extension) == ascii_folded("webp"@)
}

/// A file has the class its name gives it: lock files first, whatever else
/// they look like, configuration next, and sources and documents by their
/// extension.
pub proof fn law_a_name_has_its_class(
    windows: DebounceWindows,
    path: FsPath,
    stem: Seq<char>,
    extension: Seq<char>,
    r: (DebounceClass, Duration),
)
    requires
        call_ensures(DebounceWindows::classify_path, (&windows, &path), r),
        path@.len() > 0,
        path@.last() == Part::Normal(stem.push('.') + extension),
        stem.len() > 0,
        forall|i: int| 0 <= i < extension.len() ==> #[trigger] extension[i] != '.',
    ensures
        ({
            let name = stem.push('.') + extension;
            let lock = names_a_lockfile(name) || ascii_folded(extension) == ascii_folded("lock"@);
            let config = (".env"@.len() <= name.len() && ascii_folded(name).take(
                ".env"@.len() as int,
            ) == ".env"@) || names_a_configuration(name) || ends_a_configuration(extension);
            &&& r.0 is Lockfile <==> lock
            &&& r.0 is KeyConfig <==> !lock && config
            &&& r.0 is CodeText <==> !lock && !config && ends_a_source(extension)
            &&& r.0 is Document <==> !lock && !config && !ends_a_source(extension)
                && ends_a_document(extension)
        }),
{
    let name = stem.push('.') + extension;
    let i = stem.len() as int;
    assert(name[i] == '.');
    assert forall|j: int| i < j < name.len() implies name[j] != '.' by {
        assert(name[j] == extension[j - i - 1]);
    }
    lemma_last_dot_unique(name, i);
    assert(name.skip(i + 1) =~= extension);
    assert(ascii_folded(name).len() == name.len());
}

/// A record is judged by the class of its own path and handed on exactly once
/// it was quiet for that class's window.
pub proof fn law_a_record_is_judged_by_its_path<C: Clock>(
    debounce: DebounceLoop<C>,
    windows: DebounceWindows,
    record: PendingEventRecord,
    now: SystemTime,
    class: (DebounceClass, Duration),
    r: Option<(DebounceClass, Duration)>,
)
    requires
        call_ensures(DebounceLoop::<C>::classify_stable_record, (&debounce, &record, now), r),
        call_ensures(DebounceWindows::classify_path, (&windows, &record.path), class),
        windows == debounce.quiet_windows(),
    ensures
        r matches Some(found) ==> found == class,
        r is Some <==> now.nanos >= record.last_observed_at.nanos && now.nanos
            >= record.last_observed_at.nanos + class.1.nanos,
{
}

/// A loop starts with the windows it is given, a tick of a quarter of a second
/// and none behind it.
pub proof fn law_a_loop_starts_without_a_tick<C: Clock>(
    windows: DebounceWindows,
    clock: C,
    r: DebounceLoop<C>,
    due: bool,
    now: Instant,
)
    requires
        call_ensures(DebounceLoop::<C>::with_windows_and_clock, (windows, clock), r),
        call_ensures(DebounceLoop::<C>::tick_is_due, (&r, now), due),
    ensures
        r.interval().nanos == 250_000_000,
        r.quiet_windows() == windows,
        r.source() == clock,
        r.ticked_at() is None,
        due,
{
}

} // verus!
