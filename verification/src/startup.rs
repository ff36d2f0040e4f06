//! Startup reconciliation: the command-line arguments, how they are folded
//! into the settings store, and the checks that must pass before the
//! pipeline runs.

use vstd::prelude::*;

use crate::documents::ModelLocation;
use crate::errors::Error;
use crate::settings::SettingVal;
use crate::settings::SettingValue;
use crate::settings::Settings;
use crate::strutil::clone_string_vec;

verus! {

/// The command-line arguments, each optional.
pub struct Arguments {
    pub dburl: Option<String>,
    pub remote: Option<String>,
    pub project: Option<String>,
    pub metadata: Option<String>,
    pub token_max: Option<usize>,
    pub log_level: Option<String>,
    pub collection: Option<String>,
    pub matcher: Option<Vec<String>>,
    pub ignored: Option<Vec<String>>,
    pub location_path: Option<String>,
    pub location: Option<ModelLocation>,
    pub extensions: Option<Vec<String>>,
    pub directories: Option<Vec<String>>,
}

/// The view of an optional string.
pub open spec fn opt_str_view(o: Option<String>) -> Option<Seq<char>> {
    match o {
        Some(s) => Some(s@),
        None => None,
    }
}

/// The string carried by a setting value, or the empty string for other
/// kinds.
pub open spec fn str_of(v: SettingVal) -> Seq<char> {
    match v {
        SettingVal::Str(s) => s,
        _ => Seq::empty(),
    }
}

/// The list carried by a setting value, or the empty list for other kinds.
pub open spec fn list_of(v: SettingVal) -> Seq<Seq<char>> {
    match v {
        SettingVal::List(l) => l,
        _ => Seq::empty(),
    }
}

/// The key is present and holds a string.
pub open spec fn has_str(m: Map<Seq<char>, SettingVal>, k: Seq<char>) -> bool {
    m.contains_key(k) && m[k] is Str
}

/// The key is present and holds a boolean.
pub open spec fn has_bool(m: Map<Seq<char>, SettingVal>, k: Seq<char>) -> bool {
    m.contains_key(k) && m[k] is Bool
}

/// The key is present and holds a non-empty list.
pub open spec fn has_nonempty_list(m: Map<Seq<char>, SettingVal>, k: Seq<char>) -> bool {
    m.contains_key(k) && m[k] is List && list_of(m[k]).len() > 0
}

impl Arguments {
    /// The built-in defaults: a remote model, the default collection name,
    /// and the fragment budget at the hard ceiling.
    pub fn new() -> (r: Self)
        ensures
            r.dburl is None,
            r.ignored is None,
            r.project is None,
            r.matcher is None,
            r.metadata is None,
            r.location is None,
            r.log_level is None,
            r.extensions is None,
            r.directories is None,
            r.location_path is None,
            r.token_max == Some(256usize),
            opt_str_view(r.remote) == Some("L12"@),
            opt_str_view(r.collection) == Some("document_chunks"@),
    {
        Arguments {
            dburl: None,
            ignored: None,
            project: None,
            matcher: None,
            metadata: None,
            location: None,
            log_level: None,
            extensions: None,
            directories: None,
            location_path: None,
            token_max: Some(256),
            remote: Some("L12".to_owned()),
            collection: Some("document_chunks".to_owned()),
        }
    }

    /// Fold the match-related arguments in: an explicit matcher rule list
    /// takes precedence, and with one present the extension, ignore and
    /// directory lists are left untouched.
    pub fn apply_match_arguments(
        &mut self,
        matcher: Option<Vec<String>>,
        extensions: Option<Vec<String>>,
        ignored: Option<Vec<String>>,
        directories: Option<Vec<String>>,
    )
        ensures
            final(self).matcher == (if matcher is Some {
                matcher
            } else {
                old(self).matcher
            }),
            final(self).extensions == (if matcher is None && extensions is Some {
                extensions
            } else {
                old(self).extensions
            }),
            final(self).ignored == (if matcher is None && ignored is Some {
                ignored
            } else {
                old(self).ignored
            }),
            final(self).directories == (if matcher is None && directories is Some {
                directories
            } else {
                old(self).directories
            }),
            final(self).dburl == old(self).dburl,
            final(self).remote == old(self).remote,
            final(self).project == old(self).project,
            final(self).metadata == old(self).metadata,
            final(self).token_max == old(self).token_max,
            final(self).log_level == old(self).log_level,
            final(self).collection == old(self).collection,
            final(self).location == old(self).location,
            final(self).location_path == old(self).location_path,
    {
        if matcher.is_some() {
            self.matcher = matcher;
        } else {
            if extensions.is_some() {
                self.extensions = extensions;
            }
            if ignored.is_some() {
                self.ignored = ignored;
            }
            if directories.is_some() {
                self.directories = directories;
            }
        }
    }
}

/// Insert the string under the key when one is given.
pub open spec fn maybe_str(
    m: Map<Seq<char>, SettingVal>,
    k: Seq<char>,
    v: Option<String>,
) -> Map<Seq<char>, SettingVal> {
    match v {
        Some(s) => m.insert(k, SettingVal::Str(s@)),
        None => m,
    }
}

/// Insert the list under the key when one is given.
pub open spec fn maybe_list(
    m: Map<Seq<char>, SettingVal>,
    k: Seq<char>,
    v: Option<Vec<String>>,
) -> Map<Seq<char>, SettingVal> {
    match v {
        Some(l) => m.insert(k, SettingVal::List(l@.map_values(|s: String| s@))),
        None => m,
    }
}

/// Insert the number under the key when one is given.
pub open spec fn maybe_int(
    m: Map<Seq<char>, SettingVal>,
    k: Seq<char>,
    v: Option<usize>,
) -> Map<Seq<char>, SettingVal> {
    match v {
        Some(t) => m.insert(k, SettingVal::Int(t as int)),
        None => m,
    }
}

/// The settings after the plain argument values are folded in.
pub open spec fn base_applied(a: Arguments, m: Map<Seq<char>, SettingVal>) -> Map<
    Seq<char>,
    SettingVal,
> {
    let m1 = maybe_str(m, "indexer.project"@, a.project);
    let m2 = maybe_list(m1, "indexer.ignored"@, a.ignored);
    let m3 = maybe_str(m2, "indexer.log_level"@, a.log_level);
    let m4 = maybe_list(m3, "indexer.extensions"@, a.extensions);
    let m5 = maybe_list(m4, "indexer.directories"@, a.directories);
    let m6 = maybe_str(m5, "database.url"@, a.dburl);
    let m7 = maybe_str(m6, "database.metadata"@, a.metadata);
    let m8 = maybe_str(m7, "database.collection"@, a.collection);
    let m9 = maybe_int(m8, "database.max_tokens"@, a.token_max);
    maybe_list(m9, "matcher.rules"@, a.matcher)
}

/// The model location arguments name a local model but no path for it.
pub open spec fn missing_local_path(a: Arguments) -> bool {
    a.location matches Some(ModelLocation::Local) && a.location_path is None
}

/// The settings after the model location is folded in.
pub open spec fn location_applied(a: Arguments, m: Map<Seq<char>, SettingVal>) -> Map<
    Seq<char>,
    SettingVal,
> {
    match a.location {
        None => m,
        Some(ModelLocation::Local) => match a.location_path {
            Some(p) => m.insert("model.local"@, SettingVal::Bool(true)).insert(
                "model.location"@,
                SettingVal::Str(p@),
            ),
            None => m,
        },
        Some(ModelLocation::Remote) => m.insert("model.local"@, SettingVal::Bool(false)).insert(
            "model.location"@,
            SettingVal::Str(str_of_opt(a.remote)),
        ),
    }
}

/// The view of an optional string, or the empty string when absent.
pub open spec fn str_of_opt(o: Option<String>) -> Seq<char> {
    match o {
        Some(s) => s@,
        None => Seq::empty(),
    }
}

impl Arguments {
    /// Fold every given argument into the settings store, the model
    /// location last. A local model without a path is a configuration
    /// error; the plain values are folded in before it is noticed, as the
    /// settings are written one by one.
    pub fn to_settings(&self, settings: &mut Settings) -> (r: Result<(), Error>)
        requires
            old(settings).wf(),
            self.location matches Some(ModelLocation::Remote) ==> self.remote is Some,
            self.token_max matches Some(t) ==> t <= i64::MAX as usize,
        ensures
            final(settings).wf(),
            r is Ok <==> !missing_local_path(*self),
            final(settings)@ == location_applied(*self, base_applied(*self, old(settings)@)),
            r matches Err(e) ==> e is Configuration,
    {
        if let Some(value) = &self.project {
            settings.set("indexer.project", SettingValue::Str(value.clone()));
        }
        if let Some(values) = &self.ignored {
            settings.set("indexer.ignored", SettingValue::List(clone_string_vec(values)));
        }
        if let Some(value) = &self.log_level {
            settings.set("indexer.log_level", SettingValue::Str(value.clone()));
        }
        if let Some(values) = &self.extensions {
            settings.set("indexer.extensions", SettingValue::List(clone_string_vec(values)));
        }
        if let Some(values) = &self.directories {
            settings.set("indexer.directories", SettingValue::List(clone_string_vec(values)));
        }
        if let Some(value) = &self.dburl {
            settings.set("database.url", SettingValue::Str(value.clone()));
        }
        if let Some(value) = &self.metadata {
            settings.set("database.metadata", SettingValue::Str(value.clone()));
        }
        if let Some(value) = &self.collection {
            settings.set("database.collection", SettingValue::Str(value.clone()));
        }
        if let Some(value) = &self.token_max {
            settings.set("database.max_tokens", SettingValue::Int(*value as i64));
        }
        if let Some(values) = &self.matcher {
            settings.set("matcher.rules", SettingValue::List(clone_string_vec(values)));
        }
        match &self.location {
            None => Ok(()),
            Some(ModelLocation::Local) => {
                match &self.location_path {
                    Some(path) => {
                        settings.set("model.local", SettingValue::Bool(true));
                        settings.set("model.location", SettingValue::Str(path.clone()));
                        Ok(())
                    },
                    None => Err(
                        Error::Configuration("Local model requires a path".to_owned()),
                    ),
                }
            },
            Some(ModelLocation::Remote) => {
                settings.set("model.local", SettingValue::Bool(false));
                match &self.remote {
                    Some(remote) => {
                        settings.set("model.location", SettingValue::Str(remote.clone()));
                    },
                    None => {},
                }
                Ok(())
            },
        }
    }
}

/// What the model location defaults to when no argument names one: a local
/// model when the settings carry a local model path as a string, a remote
/// model otherwise.
pub fn check_settings(args: &mut Arguments, settings: &Settings)
    requires
        settings.wf(),
    ensures
        old(args).location is Some ==> *final(args) == *old(args),
        old(args).location is None && has_str(settings@, "model.local"@) ==> final(args).location
            == Some(ModelLocation::Local) && opt_str_view(final(args).location_path) == Some(
            str_of(settings@["model.local"@]),
        ),
        old(args).location is None && !has_str(settings@, "model.local"@)
            ==> final(args).location == Some(ModelLocation::Remote)
            && final(args).location_path == old(args).location_path,
        final(args).dburl == old(args).dburl,
        final(args).remote == old(args).remote,
        final(args).project == old(args).project,
        final(args).metadata == old(args).metadata,
        final(args).token_max == old(args).token_max,
        final(args).log_level == old(args).log_level,
        final(args).collection == old(args).collection,
        final(args).matcher == old(args).matcher,
        final(args).ignored == old(args).ignored,
        final(args).extensions == old(args).extensions,
        final(args).directories == old(args).directories,
{
    if args.location.is_none() {
        match settings.get_str("model.local") {
            Some(local) => {
                args.location = Some(ModelLocation::Local);
                args.location_path = Some(local.clone());
            },
            None => {
                args.location = Some(ModelLocation::Remote);
            },
        }
    }
}

/// What stops the run before any work: the first missing setting, with the
/// report it is refused with.
pub open spec fn verify_problem(m: Map<Seq<char>, SettingVal>) -> Option<Seq<char>> {
    if !has_str(m, "indexer.project"@) {
        Some("No project path provided"@)
    } else if !has_str(m, "database.url"@) {
        Some("No database url provided"@)
    } else if !has_bool(m, "indexer.is_file"@) && !has_nonempty_list(m, "indexer.extensions"@) {
        Some("No extensions provided. Please provide the file extensions you wish to upload."@)
    } else {
        None
    }
}

/// Refuse to run without a project path or a database url, and, for a
/// directory traversal, without extensions to index.
pub fn verify_settings(settings: &Settings) -> (r: Result<(), Error>)
    requires
        settings.wf(),
    ensures
        r is Ok <==> verify_problem(settings@) is None,
        r matches Err(e) ==> e is Configuration && verify_problem(settings@) == Some(
            e.message_spec(),
        ),
{
    if settings.get_str("indexer.project").is_none() {
        return Err(Error::Configuration("No project path provided".to_owned()));
    }
    if settings.get_str("database.url").is_none() {
        return Err(Error::Configuration("No database url provided".to_owned()));
    }
    if settings.get_bool("indexer.is_file").is_none() {
        match settings.get_list("indexer.extensions") {
            Some(exts) => {
                if exts.len() == 0 {
                    return Err(
                        Error::Configuration(
                            "No extensions provided. Please provide the file extensions you wish to upload.".to_owned(),
                        ),
                    );
                }
            },
            None => {
                return Err(
                    Error::Configuration(
                        "No extensions provided. Please provide the file extensions you wish to upload.".to_owned(),
                    ),
                );
            },
        }
    }
    Ok(())
}

/// What the surrounding program found on disk before the project settings
/// are resolved.
pub struct ProjectProbe {
    /// The project path names a file rather than a directory.
    pub is_file: bool,
    /// A project settings file exists beside the project.
    pub vector_file_exists: bool,
    /// A project settings file exists in the working directory.
    pub cwd_vector_file_exists: bool,
}

/// Which settings file the run continues with.
#[derive(Clone, Copy, PartialEq, Eq, Structural, Debug)]
pub enum ConfigSource {
    /// The settings file beside the project.
    ProjectFile,
    /// A default settings file to be created beside the project, then used.
    CreatedProjectFile,
    /// The settings file in the working directory.
    WorkingDirFile,
}

/// The key `indexer.project_file` is present and set.
pub open spec fn project_file_flag(m: Map<Seq<char>, SettingVal>) -> bool {
    m.contains_key("indexer.project_file"@) && m["indexer.project_file"@] == SettingVal::Bool(
        true,
    )
}

/// The settings after the project path is recorded.
pub open spec fn project_applied(a: Arguments, is_file: bool, m: Map<Seq<char>, SettingVal>)
    -> Map<Seq<char>, SettingVal> {
    match a.project {
        Some(p) => (if is_file {
            m.insert("indexer.is_file"@, SettingVal::Bool(true))
        } else {
            m
        }).insert("indexer.project"@, SettingVal::Str(p@)),
        None => m,
    }
}

/// What stops the project resolution: the first missing piece, with the
/// report it is refused with.
pub open spec fn project_problem(
    a: Arguments,
    m: Map<Seq<char>, SettingVal>,
    probe: ProjectProbe,
) -> Option<Seq<char>> {
    if a.project is None {
        Some("No project path provided"@)
    } else if !probe.vector_file_exists && !project_file_flag(m) && !probe.cwd_vector_file_exists {
        Some("No .vectorizer file found"@)
    } else {
        None
    }
}

/// Record the project path in the settings and decide which settings file
/// the run continues with: the file beside the project if it exists, a
/// default one created there if the settings ask for one, else the file in
/// the working directory.
pub fn check_project(args: &Arguments, settings: &mut Settings, probe: &ProjectProbe) -> (r:
    Result<ConfigSource, Error>)
    requires
        old(settings).wf(),
    ensures
        final(settings).wf(),
        final(settings)@ == project_applied(*args, probe.is_file, old(settings)@),
        r is Ok <==> project_problem(*args, old(settings)@, *probe) is None,
        r matches Ok(src) ==> src == (if probe.vector_file_exists {
            ConfigSource::ProjectFile
        } else if project_file_flag(old(settings)@) {
            ConfigSource::CreatedProjectFile
        } else {
            ConfigSource::WorkingDirFile
        }),
        r matches Err(e) ==> e is Configuration && project_problem(*args, old(settings)@, *probe)
            == Some(e.message_spec()),
{
    let project = match &args.project {
        Some(p) => p,
        None => {
            return Err(Error::Configuration("No project path provided".to_owned()));
        },
    };
    if probe.is_file {
        settings.set("indexer.is_file", SettingValue::Bool(true));
    }
    settings.set("indexer.project", SettingValue::Str(project.clone()));
    proof {
        reveal_strlit("indexer.is_file");
        reveal_strlit("indexer.project");
        reveal_strlit("indexer.project_file");
        assert(("indexer.is_file")@.len() == 15);
        assert(("indexer.project")@.len() == 15);
        assert(("indexer.project_file")@.len() == 20);
        assert(("indexer.is_file")@ != ("indexer.project_file")@);
        assert(("indexer.project")@ != ("indexer.project_file")@);
    }
    let project_file = match settings.get_bool("indexer.project_file") {
        Some(b) => b,
        None => false,
    };
    if probe.vector_file_exists {
        Ok(ConfigSource::ProjectFile)
    } else if project_file {
        Ok(ConfigSource::CreatedProjectFile)
    } else if probe.cwd_vector_file_exists {
        Ok(ConfigSource::WorkingDirFile)
    } else {
        Err(Error::Configuration("No .vectorizer file found".to_owned()))
    }
}

} // verus!
