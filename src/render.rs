use vstd::prelude::*;
use vstd::string::StringSliceAdditionalSpecFns;

use md5::{Digest, Md5};

use crate::errors::{AwareTaskError, TaskError};
use crate::paths::{has_prefix, starts_with};
use crate::tasks::TaskCondition;
use crate::text::{concat, text_eq};

verus! {

#[verifier::external_type_specification]
#[verifier::external_body]
pub struct ExTera(tera::Tera);

#[verifier::external_type_specification]
#[verifier::external_body]
pub struct ExContext(tera::Context);

#[verifier::external_type_specification]
#[verifier::external_body]
pub struct ExTeraError(tera::Error);

/// What `str::trim` makes of a string.
pub uninterp spec fn trimmed(s: Seq<char>) -> Seq<char>;

/// What `str::to_lowercase` makes of a string.
pub uninterp spec fn lowercased(s: Seq<char>) -> Seq<char>;

/// The upper-case hexadecimal MD5 digest of some bytes.
pub uninterp spec fn md5_hex_of(data: Seq<u8>) -> Seq<char>;

/// Relies on `str::trim`: drops leading and trailing white space.
#[verifier::external_body]
fn trim(s: &str) -> (r: String)
    ensures
        r@ == trimmed(s@),
{
    s.trim().to_string()
}

/// Relies on `str::to_lowercase`.
#[verifier::external_body]
fn lowercase(s: &str) -> (r: String)
    ensures
        r@ == lowercased(s@),
{
    s.to_lowercase()
}

/// Relies on `md5::Md5::digest` and upper-case hexadecimal formatting of it.
#[verifier::external_body]
fn md5_hex(data: &Vec<u8>) -> (r: String)
    ensures
        r@ == md5_hex_of(data@),
{
    format!("{:X}", Md5::digest(data.as_slice()))
}

/// Relies on `tera::Tera::add_raw_template`: registers `content` under `name`.
#[verifier::external_body]
fn add_template(tera: &mut tera::Tera, name: &str, content: &str) -> Result<(), tera::Error> {
    tera.add_raw_template(name, content)
}

/// Relies on `tera::Tera::render`; what it gives depends on the functions
/// the engine has, which may read the environment or the terminal.
#[verifier::external_body]
fn render_template(tera: &tera::Tera, name: &str, context: &tera::Context) -> Result<String, tera::Error> {
    tera.render(name, context)
}

/// Relies on the `Display` of `tera::Error`.
#[verifier::external_body]
fn template_error_text(e: &tera::Error) -> String {
    e.to_string()
}

/// Help text of a task, trimmed; empty when it has none.
pub fn get_help(task: &crate::tasks::Task) -> (r: String)
    ensures
        task.help matches Some(h) ==> r@ == trimmed(h@),
        task.help is None ==> r@.len() == 0,
{
    match &task.help {
        Some(h) => trim(h.as_str()),
        None => String::new(),
    }
}

/// Formats of variable files.
#[derive(Clone, Copy, PartialEq, Eq, Debug)]
pub enum VarsFormat {
    Json,
    Yaml,
    Toml,
    Env,
}

/// Position of the last `.` in `name`, or -1.
pub open spec fn last_dot(name: Seq<char>) -> int
    decreases name.len(),
{
    if name.len() == 0 {
        -1
    } else if name.last() == '.' {
        name.len() - 1
    } else {
        last_dot(name.drop_last())
    }
}

/// Extension of a file name: what follows its last `.`, unless that `.`
/// is its first character; empty otherwise.
pub open spec fn extension_of(name: Seq<char>) -> Seq<char> {
    if last_dot(name) > 0 {
        name.subrange(last_dot(name) + 1, name.len() as int)
    } else {
        Seq::empty()
    }
}

/// Format of a variable file by its lower-cased extension.
pub open spec fn format_of(ext: Seq<char>) -> Option<VarsFormat> {
    if ext == "json"@ {
        Some(VarsFormat::Json)
    } else if ext == "yaml"@ || ext == "yml"@ {
        Some(VarsFormat::Yaml)
    } else if ext == "toml"@ {
        Some(VarsFormat::Toml)
    } else if ext == "env"@ {
        Some(VarsFormat::Env)
    } else {
        None
    }
}

proof fn lemma_last_dot(name: Seq<char>, k: int)
    requires
        -1 <= k < name.len(),
        k == -1 || name[k] == '.',
        forall|j: int| k < j < name.len() ==> name[j] != '.',
    ensures
        last_dot(name) == k,
    decreases name.len(),
{
    if name.len() > 0 && k < name.len() - 1 {
        lemma_last_dot(name.drop_last(), k);
    }
}

/// Format of the variable file at `path`, chosen by its extension; an
/// unknown one is a configuration error naming the file.
pub fn vars_file_format(path: &str) -> (r: Result<VarsFormat, TaskError>)
    ensures
        format_of(lowercased(extension_of(crate::paths::file_name_of(path@)))) matches Some(f) ==> r == Ok::<
            VarsFormat,
            TaskError,
        >(f),
        format_of(lowercased(extension_of(crate::paths::file_name_of(path@)))) is None ==> (r matches Err(
            TaskError::ConfigError(m),
        ) && m@ == "Unsupported file extension for vars file at "@ + path@),
{
    let name = crate::paths::file_name(path);
    let len = name.unicode_len();
    let mut k = len;
    while k > 0 && name.as_str().get_char(k - 1) != '.'
        invariant
            len == name@.len(),
            k <= len,
            forall|j: int| k <= j < len ==> name@[j] != '.',
        decreases k,
    {
        k = k - 1;
    }
    proof {
        lemma_last_dot(name@, k - 1);
    }
    let ext = if k > 1 {
        String::from_str(name.as_str().substring_char(k, len))
    } else {
        String::new()
    };
    proof {
        assert(ext@ == extension_of(name@));
    }
    let lower = lowercase(ext.as_str());
    if text_eq(lower.as_str(), "json") {
        Ok(VarsFormat::Json)
    } else if text_eq(lower.as_str(), "yaml") || text_eq(lower.as_str(), "yml") {
        Ok(VarsFormat::Yaml)
    } else if text_eq(lower.as_str(), "toml") {
        Ok(VarsFormat::Toml)
    } else if text_eq(lower.as_str(), "env") {
        Ok(VarsFormat::Env)
    } else {
        Err(TaskError::ConfigError(concat("Unsupported file extension for vars file at ", path)))
    }
}

/// A rendered condition holds when, trimmed and lower-cased, it is `true`.
pub fn condition_text_holds(rendered: &str) -> (r: bool)
    ensures
        r == (lowercased(trimmed(rendered@)) == "true"@),
{
    let t = trim(rendered);
    let l = lowercase(t.as_str());
    text_eq(l.as_str(), "true")
}

/// What `shell_words::split` makes of a command line: its words, or
/// nothing when the line cannot be split.
pub uninterp spec fn shell_words_of(s: Seq<char>) -> Option<Seq<Seq<char>>>;

/// Relies on `shell_words::split`: the words of a command line, quotes and
/// escapes taken into account, or the reason it cannot be split.
#[verifier::external_body]
fn shell_split(s: &str) -> (r: Result<Vec<String>, String>)
    ensures
        r matches Ok(v) ==> shell_words_of(s@) == Some(crate::common::texts(v@)),
        r is Err ==> shell_words_of(s@) is None,
{
    shell_words::split(s).map_err(|e| e.to_string())
}

/// Splits a command line into words; a line that cannot be split is a
/// configuration error.
pub fn split_command(val: &str) -> (r: Result<Vec<String>, TaskError>)
    ensures
        r matches Ok(v) ==> shell_words_of(val@) == Some(crate::common::texts(v@)),
        r matches Err(e) ==> shell_words_of(val@) is None && e is ConfigError,
{
    match shell_split(val) {
        Ok(v) => Ok(v),
        Err(m) => Err(TaskError::ConfigError(m)),
    }
}

/// Message for a condition that could not be rendered.
pub open spec fn invalid_condition(m: Seq<char>) -> Seq<char> {
    "Invalid condition: "@ + m
}

impl TaskCondition {
    /// Renders the condition of task `task_name` and tells whether it holds;
    /// see `condition_text_holds`. A template that fails is a configuration
    /// error of the task.
    pub fn holds(&self, task_name: &str, tera: &mut tera::Tera, context: &tera::Context) -> (r: Result<bool, AwareTaskError>)
        ensures
            r matches Err(e) ==> e.task_name@ == task_name@ && e.error is ConfigError && has_prefix(
                e.error->ConfigError_0@,
                "Invalid condition: "@,
            ),
    {
        let name = concat(task_name, ".condition");
        match add_template(tera, name.as_str(), self.0.as_str()) {
            Ok(()) => {},
            Err(e) => {
                let m = concat("Invalid condition: ", template_error_text(&e).as_str());
                proof {
                    assert(m@.subrange(0, "Invalid condition: "@.len() as int) =~= "Invalid condition: "@);
                }
                return Err(AwareTaskError::new(task_name, TaskError::ConfigError(m)));
            },
        }
        match render_template(tera, name.as_str(), context) {
            Ok(text) => Ok(condition_text_holds(text.as_str())),
            Err(e) => {
                let m = concat("Invalid condition: ", template_error_text(&e).as_str());
                proof {
                    assert(m@.subrange(0, "Invalid condition: "@.len() as int) =~= "Invalid condition: "@);
                }
                Err(AwareTaskError::new(task_name, TaskError::ConfigError(m)))
            },
        }
    }
}

/// The extension a script file gets: none for an empty one, else a dot
/// followed by it, unless it starts with one already.
pub open spec fn script_suffix(ext: Seq<char>) -> Seq<char> {
    if ext.len() == 0 {
        Seq::empty()
    } else if has_prefix(ext, "."@) {
        ext
    } else {
        "."@ + ext
    }
}

/// Name of the cached script file for a task: the MD5 digest of the task's
/// name, the configuration file's path and the rendered script, then the
/// script's extension.
pub fn temp_script_name(task_name: &str, file_path: &str, content: &str, extension: &str) -> (r: String)
    ensures
        r@ == md5_hex_of(task_name.spec_bytes() + file_path.spec_bytes() + content.spec_bytes()) + script_suffix(
            extension@,
        ),
{
    let mut data = task_name.as_bytes_vec();
    let mut b = file_path.as_bytes_vec();
    data.append(&mut b);
    let mut c = content.as_bytes_vec();
    data.append(&mut c);
    let hash = md5_hex(&data);
    let suffix = if extension.unicode_len() == 0 {
        String::new()
    } else if starts_with(extension, ".") {
        String::from_str(extension)
    } else {
        concat(".", extension)
    };
    concat(hash.as_str(), suffix.as_str())
}

} // verus!
