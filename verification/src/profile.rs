//! Profiles and the compiler flags that they stand for.
//!
//! `opt-level`, `debug`, `sanitize` and `extra-cflags` count; the other fields
//! of a profile are read and ignored.
use vstd::prelude::*;
use vstd::string::*;

use crate::manifest::{debug_value, value_debug, Profile, TomlValue};
use crate::text::{copy_texts, debug_str, joined_texts, join_texts, push_signed, push_text, push_texts,
    same_text, signed_decimal, str_debug, texts};

verus! {

/// Which of the built-in profiles to use.
#[derive(Debug, Clone, Copy, PartialEq, Eq, Structural)]
pub enum ProfileKind {
    Dev,
    Release,
}

impl ProfileKind {
    /// The name of the profile's directory under `target/`.
    pub open spec fn dir_text(self) -> Seq<char> {
        match self {
            ProfileKind::Dev => "debug"@,
            ProfileKind::Release => "release"@,
        }
    }

    /// The name of the profile in the manifest.
    pub open spec fn manifest_text(self) -> Seq<char> {
        match self {
            ProfileKind::Dev => "dev"@,
            ProfileKind::Release => "release"@,
        }
    }

    /// The name of the profile's directory under `target/`.
    pub fn dir_name(self) -> (r: &'static str)
        ensures
            r@ == self.dir_text(),
    {
        match self {
            ProfileKind::Dev => "debug",
            ProfileKind::Release => "release",
        }
    }

    /// The name of the profile in the manifest.
    pub fn manifest_name(self) -> (r: &'static str)
        ensures
            r@ == self.manifest_text(),
    {
        match self {
            ProfileKind::Dev => "dev",
            ProfileKind::Release => "release",
        }
    }
}

/// An optimisation level.
#[derive(Debug, Clone, Copy, PartialEq, Eq, Structural)]
pub enum OptLevel {
    O0,
    O1,
    O2,
    O3,
    Os,
    Oz,
}

impl OptLevel {
    /// The flag of the level.
    pub open spec fn flag_text(self) -> Seq<char> {
        match self {
            OptLevel::O0 => "-O0"@,
            OptLevel::O1 => "-O1"@,
            OptLevel::O2 => "-O2"@,
            OptLevel::O3 => "-O3"@,
            OptLevel::Os => "-Os"@,
            OptLevel::Oz => "-Oz"@,
        }
    }

    /// The flag of the level.
    pub fn flag(self) -> (r: &'static str)
        ensures
            r@ == self.flag_text(),
    {
        match self {
            OptLevel::O0 => "-O0",
            OptLevel::O1 => "-O1",
            OptLevel::O2 => "-O2",
            OptLevel::O3 => "-O3",
            OptLevel::Os => "-Os",
            OptLevel::Oz => "-Oz",
        }
    }
}

/// How much debug information to emit.
#[derive(Debug, Clone, Copy, PartialEq, Eq, Structural)]
pub enum DebugInfo {
    Off,
    LineTablesOnly,
    Full,
}

impl DebugInfo {
    /// The flags of the setting, which follow the flag of the level.
    pub open spec fn flag_texts(self) -> Seq<Seq<char>> {
        match self {
            DebugInfo::Off => seq![],
            DebugInfo::LineTablesOnly => seq!["-gline-tables-only"@],
            DebugInfo::Full => seq!["-g3"@, "-gdwarf-5"@],
        }
    }

    /// The flags of the setting, which follow the flag of the level.
    pub fn flags(self) -> (r: Vec<String>)
        ensures
            texts(r@) == self.flag_texts(),
    {
        let mut out: Vec<String> = Vec::new();
        match self {
            DebugInfo::Off => {},
            DebugInfo::LineTablesOnly => {
                push_text(&mut out, "-gline-tables-only");
            },
            DebugInfo::Full => {
                push_text(&mut out, "-g3");
                push_text(&mut out, "-gdwarf-5");
            },
        }
        assert(texts(out@) =~= self.flag_texts());
        out
    }
}

/// A profile with nothing left open.
#[derive(Debug, Clone)]
pub struct ResolvedProfile {
    pub opt_level: OptLevel,
    pub debug: DebugInfo,
    pub sanitize: Vec<String>,
    pub extra_cflags: Vec<String>,
}

/// The level that a value of `opt-level` stands for.
pub open spec fn opt_level_of(v: TomlValue) -> Option<OptLevel> {
    match v {
        TomlValue::Integer(i) => if i == 0 {
            Some(OptLevel::O0)
        } else if i == 1 {
            Some(OptLevel::O1)
        } else if i == 2 {
            Some(OptLevel::O2)
        } else if i == 3 {
            Some(OptLevel::O3)
        } else {
            None
        },
        TomlValue::Str(s) => if s@ == "0"@ {
            Some(OptLevel::O0)
        } else if s@ == "1"@ {
            Some(OptLevel::O1)
        } else if s@ == "2"@ {
            Some(OptLevel::O2)
        } else if s@ == "3"@ {
            Some(OptLevel::O3)
        } else if s@ == "s"@ {
            Some(OptLevel::Os)
        } else if s@ == "z"@ {
            Some(OptLevel::Oz)
        } else {
            None
        },
        _ => None,
    }
}

/// The setting that a value of `debug` stands for.
pub open spec fn debug_of(s: Seq<char>) -> Option<DebugInfo> {
    if s == "none"@ {
        Some(DebugInfo::Off)
    } else if s == "line-tables-only"@ {
        Some(DebugInfo::LineTablesOnly)
    } else if s == "full"@ {
        Some(DebugInfo::Full)
    } else {
        None
    }
}

/// Why a profile is refused.
#[derive(Debug, Clone, PartialEq, Eq)]
pub enum ProfileError {
    OptInteger { value: i64 },
    OptString { value: String },
    /// A value that is neither an integer nor a string, as `Debug` shows it.
    OptValue { shown: String },
    DebugValue { value: String },
}

impl ProfileError {
    /// Whether this is the report on a value of `opt-level`.
    pub open spec fn reports_opt_level(self, v: TomlValue) -> bool {
        match v {
            TomlValue::Integer(i) => self == (ProfileError::OptInteger { value: i }),
            TomlValue::Str(s) => self matches ProfileError::OptString { value } && value@ == s@,
            _ => self matches ProfileError::OptValue { shown } && shown@ == value_debug(v),
        }
    }

    /// Whether this is the report on a value of `debug`.
    pub open spec fn reports_debug(self, s: Seq<char>) -> bool {
        self matches ProfileError::DebugValue { value } && value@ == s
    }

    /// The text of the diagnostic.
    pub open spec fn text(self) -> Seq<char> {
        match self {
            ProfileError::OptInteger { value } => "invalid opt-level integer "@ + signed_decimal(
                value as int,
            ) + " (expected 0..=3)"@,
            ProfileError::OptString { value } => "invalid opt-level string "@ + str_debug(value@)
                + " (expected 0..3, s, z)"@,
            ProfileError::OptValue { shown } => "invalid opt-level value "@ + shown@
                + " — want integer or string"@,
            ProfileError::DebugValue { value } => "invalid debug = "@ + str_debug(value@)
                + " (expected none|line-tables-only|full)"@,
        }
    }

    /// The diagnostic.
    pub fn message(&self) -> (r: String)
        ensures
            r@ == self.text(),
    {
        match self {
            ProfileError::OptInteger { value } => {
                let mut out: String = "invalid opt-level integer ".to_owned();
                push_signed(&mut out, *value);
                out.append(" (expected 0..=3)");
                out
            },
            ProfileError::OptString { value } => {
                let mut out: String = "invalid opt-level string ".to_owned();
                out.append(debug_str(value.as_str()).as_str());
                out.append(" (expected 0..3, s, z)");
                out
            },
            ProfileError::OptValue { shown } => {
                let mut out: String = "invalid opt-level value ".to_owned();
                out.append(shown.as_str());
                out.append(" — want integer or string");
                out
            },
            ProfileError::DebugValue { value } => {
                let mut out: String = "invalid debug = ".to_owned();
                out.append(debug_str(value.as_str()).as_str());
                out.append(" (expected none|line-tables-only|full)");
                out
            },
        }
    }
}

/// The level that a value of `opt-level` stands for.
pub fn parse_opt_level(v: &TomlValue) -> (r: Result<OptLevel, ProfileError>)
    ensures
        match r {
            Ok(level) => opt_level_of(*v) == Some(level),
            Err(e) => opt_level_of(*v) is None && e.reports_opt_level(*v),
        },
{
    match v {
        TomlValue::Integer(i) => match *i {
            0 => Ok(OptLevel::O0),
            1 => Ok(OptLevel::O1),
            2 => Ok(OptLevel::O2),
            3 => Ok(OptLevel::O3),
            other => Err(ProfileError::OptInteger { value: other }),
        },
        TomlValue::Str(s) => {
            if same_text(s.as_str(), "0") {
                Ok(OptLevel::O0)
            } else if same_text(s.as_str(), "1") {
                Ok(OptLevel::O1)
            } else if same_text(s.as_str(), "2") {
                Ok(OptLevel::O2)
            } else if same_text(s.as_str(), "3") {
                Ok(OptLevel::O3)
            } else if same_text(s.as_str(), "s") {
                Ok(OptLevel::Os)
            } else if same_text(s.as_str(), "z") {
                Ok(OptLevel::Oz)
            } else {
                Err(ProfileError::OptString { value: s.clone() })
            }
        },
        _ => Err(ProfileError::OptValue { shown: debug_value(v) }),
    }
}

/// The setting that a value of `debug` stands for.
pub fn parse_debug(s: &str) -> (r: Result<DebugInfo, ProfileError>)
    ensures
        match r {
            Ok(debug) => debug_of(s@) == Some(debug),
            Err(e) => debug_of(s@) is None && e.reports_debug(s@),
        },
{
    if same_text(s, "none") {
        Ok(DebugInfo::Off)
    } else if same_text(s, "line-tables-only") {
        Ok(DebugInfo::LineTablesOnly)
    } else if same_text(s, "full") {
        Ok(DebugInfo::Full)
    } else {
        Err(ProfileError::DebugValue { value: s.to_owned() })
    }
}

/// The level of a built-in profile.
pub open spec fn default_opt_level(kind: ProfileKind) -> OptLevel {
    match kind {
        ProfileKind::Dev => OptLevel::O0,
        ProfileKind::Release => OptLevel::O3,
    }
}

/// The debug information of a built-in profile.
pub open spec fn default_debug(kind: ProfileKind) -> DebugInfo {
    match kind {
        ProfileKind::Dev => DebugInfo::Full,
        ProfileKind::Release => DebugInfo::LineTablesOnly,
    }
}

/// The value of `opt-level` in the manifest.
pub open spec fn asked_opt_level(overrides: Option<Profile>) -> Option<TomlValue> {
    match overrides {
        Some(o) => o.opt_level,
        None => None,
    }
}

/// The value of `debug` in the manifest.
pub open spec fn asked_debug(overrides: Option<Profile>) -> Option<Seq<char>> {
    match overrides {
        Some(o) => match o.debug {
            Some(d) => Some(d@),
            None => None,
        },
        None => None,
    }
}

/// Whether the value of `opt-level` in the manifest, if there is one, stands
/// for a level.
pub open spec fn opt_level_is_sound(overrides: Option<Profile>) -> bool {
    asked_opt_level(overrides) matches Some(v) ==> opt_level_of(v) is Some
}

/// Whether the value of `debug` in the manifest, if there is one, stands for
/// a setting.
pub open spec fn debug_is_sound(overrides: Option<Profile>) -> bool {
    asked_debug(overrides) matches Some(d) ==> debug_of(d) is Some
}

/// The texts of a list, or none.
pub open spec fn listed_texts(list: Option<Vec<String>>) -> Seq<Seq<char>> {
    match list {
        Some(v) => texts(v@),
        None => seq![],
    }
}

impl ResolvedProfile {
    /// Whether this is the built-in profile `kind` with what the manifest
    /// puts in its place.
    pub open spec fn resolves(self, kind: ProfileKind, overrides: Option<Profile>) -> bool {
        &&& self.opt_level == match asked_opt_level(overrides) {
            Some(v) => opt_level_of(v)->0,
            None => default_opt_level(kind),
        }
        &&& self.debug == match asked_debug(overrides) {
            Some(d) => debug_of(d)->0,
            None => default_debug(kind),
        }
        &&& texts(self.sanitize@) == match overrides {
            Some(o) => listed_texts(o.sanitize),
            None => seq![],
        }
        &&& texts(self.extra_cflags@) == match overrides {
            Some(o) => listed_texts(o.extra_cflags),
            None => seq![],
        }
    }

    /// The built-in profile `kind` with what the manifest puts in its place.
    pub fn resolve(kind: ProfileKind, overrides: Option<&Profile>) -> (r: Result<Self, ProfileError>)
        ensures
            r is Ok <==> opt_level_is_sound(owned(overrides)) && debug_is_sound(owned(overrides)),
            r matches Ok(p) ==> p.resolves(kind, owned(overrides)),
            r matches Err(e) ==> if opt_level_is_sound(owned(overrides)) {
                e.reports_debug(asked_debug(owned(overrides))->0)
            } else {
                e.reports_opt_level(asked_opt_level(owned(overrides))->0)
            },
    {
        let mut opt_level: OptLevel = match kind {
            ProfileKind::Dev => OptLevel::O0,
            ProfileKind::Release => OptLevel::O3,
        };
        let mut debug: DebugInfo = match kind {
            ProfileKind::Dev => DebugInfo::Full,
            ProfileKind::Release => DebugInfo::LineTablesOnly,
        };
        let mut sanitize: Vec<String> = Vec::new();
        let mut extra_cflags: Vec<String> = Vec::new();
        assert(texts(sanitize@) =~= seq![]);
        assert(texts(extra_cflags@) =~= seq![]);
        if let Some(o) = overrides {
            if let Some(v) = &o.opt_level {
                match parse_opt_level(v) {
                    Ok(level) => {
                        opt_level = level;
                    },
                    Err(e) => {
                        return Err(e);
                    },
                }
            }
            if let Some(d) = &o.debug {
                match parse_debug(d.as_str()) {
                    Ok(setting) => {
                        debug = setting;
                    },
                    Err(e) => {
                        return Err(e);
                    },
                }
            }
            if let Some(s) = &o.sanitize {
                sanitize = copy_texts(s);
            }
            if let Some(f) = &o.extra_cflags {
                extra_cflags = copy_texts(f);
            }
        }
        Ok(ResolvedProfile { opt_level, debug, sanitize, extra_cflags })
    }

    /// The flags of the profile: the level, the debug information, the
    /// sanitizers if there are any, and the flags of the manifest.
    pub open spec fn cflag_texts(self) -> Seq<Seq<char>> {
        let sanitize = if self.sanitize@.len() == 0 {
            seq![]
        } else {
            seq!["-fsanitize="@ + joined_texts(texts(self.sanitize@), ","@)]
        };
        seq![self.opt_level.flag_text()] + self.debug.flag_texts() + sanitize + texts(
            self.extra_cflags@,
        )
    }

    /// The flags of the profile.
    pub fn cflags(&self) -> (r: Vec<String>)
        ensures
            texts(r@) == self.cflag_texts(),
    {
        let mut out: Vec<String> = Vec::new();
        push_text(&mut out, self.opt_level.flag());
        assert(texts(out@) =~= seq![self.opt_level.flag_text()]);
        push_texts(&mut out, &self.debug.flags());
        let ghost before = texts(out@);
        if self.sanitize.len() > 0 {
            let mut flag: String = "-fsanitize=".to_owned();
            flag.append(join_texts(&self.sanitize, ",").as_str());
            push_text(&mut out, flag.as_str());
            assert(texts(out@) =~= before + seq![flag@]);
        } else {
            assert(texts(out@) =~= before + seq![]);
        }
        push_texts(&mut out, &self.extra_cflags);
        out
    }
}

/// The value behind an optional reference.
pub open spec fn owned<T>(v: Option<&T>) -> Option<T> {
    match v {
        Some(x) => Some(*x),
        None => None,
    }
}

/// A profile that the manifest leaves alone is the built-in one: `-O0` with
/// full debug information, or `-O3` with line tables.
pub proof fn law_default_profile(kind: ProfileKind, p: ResolvedProfile)
    requires
        p.resolves(kind, None),
    ensures
        p.cflag_texts() == match kind {
            ProfileKind::Dev => seq!["-O0"@, "-g3"@, "-gdwarf-5"@],
            ProfileKind::Release => seq!["-O3"@, "-gline-tables-only"@],
        },
{
    assert(texts(p.sanitize@).len() == 0);
    match kind {
        ProfileKind::Dev => {
            assert(p.cflag_texts() =~= seq!["-O0"@, "-g3"@, "-gdwarf-5"@]);
        },
        ProfileKind::Release => {
            assert(p.cflag_texts() =~= seq!["-O3"@, "-gline-tables-only"@]);
        },
    }
}

} // verus!
