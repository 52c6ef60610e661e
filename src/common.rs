use vstd::prelude::*;

use crate::keyed_map::{Duplicate, KeyedMap};
use crate::paths::{get_path_relative_to_base, relative_to_base};

verus! {

#[verifier::external_type_specification]
#[verifier::external_body]
pub struct ExJsonValue(serde_json::Value);

/// Relies on the derived `Clone` of `serde_json::Value`: the copy is an equal value.
pub assume_specification[ <serde_json::Value as Clone>::clone ](v: &serde_json::Value) -> (r: serde_json::Value)
    ensures
        r == *v,
;

impl Duplicate for serde_json::Value {
    fn duplicate(&self) -> (r: serde_json::Value) {
        self.clone()
    }
}

/// Optional text as an optional character sequence.
pub open spec fn opt_text(o: Option<String>) -> Option<Seq<char>> {
    match o {
        Some(s) => Some(s@),
        None => None,
    }
}

/// A copy of optional text.
pub fn copy_opt_text(o: &Option<String>) -> (r: Option<String>)
    ensures
        r == *o,
{
    match o {
        Some(s) => Some(s.clone()),
        None => None,
    }
}

/// The character sequences of a list of strings.
pub open spec fn texts(v: Seq<String>) -> Seq<Seq<char>> {
    v.map_values(|s: String| s@)
}

/// A copy of a list of strings.
pub fn copy_texts(v: &Vec<String>) -> (r: Vec<String>)
    ensures
        r@ == v@,
{
    let mut r: Vec<String> = Vec::new();
    let mut i: usize = 0;
    while i < v.len()
        invariant
            i <= v@.len(),
            r@ == v@.subrange(0, i as int),
        decreases v@.len() - i,
    {
        r.push(v[i].clone());
        proof {
            assert(r@ =~= v@.subrange(0, i + 1));
        }
        i = i + 1;
    }
    proof {
        assert(r@ =~= v@);
    }
    r
}

/// One name, or a list of names.
pub enum StringOrVecString {
    Single(String),
    Multiple(Vec<String>),
}

impl StringOrVecString {
    /// The names, in order.
    pub open spec fn items(&self) -> Seq<Seq<char>> {
        match self {
            StringOrVecString::Single(s) => seq![s@],
            StringOrVecString::Multiple(v) => texts(v@),
        }
    }

    /// The empty list.
    pub fn empty() -> (r: StringOrVecString)
        ensures
            r.items() == Seq::<Seq<char>>::empty(),
    {
        let r = StringOrVecString::Multiple(Vec::new());
        proof {
            assert(r.items() =~= Seq::<Seq<char>>::empty());
        }
        r
    }

    /// The names, in order.
    pub fn iter(&self) -> (r: Vec<String>)
        ensures
            texts(r@) == self.items(),
    {
        match self {
            StringOrVecString::Single(s) => {
                let mut r: Vec<String> = Vec::new();
                r.push(s.clone());
                proof {
                    assert(texts(r@) =~= self.items());
                }
                r
            },
            StringOrVecString::Multiple(v) => copy_texts(v),
        }
    }

    /// Whether there are no names.
    pub fn is_empty(&self) -> (r: bool)
        ensures
            r == (self.items().len() == 0),
    {
        match self {
            StringOrVecString::Single(_) => false,
            StringOrVecString::Multiple(v) => v.len() == 0,
        }
    }

    /// An equal list of names.
    pub fn duplicate(&self) -> (r: StringOrVecString)
        ensures
            r.items() == self.items(),
    {
        match self {
            StringOrVecString::Single(s) => StringOrVecString::Single(s.clone()),
            StringOrVecString::Multiple(v) => {
                let c = copy_texts(v);
                StringOrVecString::Multiple(c)
            },
        }
    }
}

/// Where to read extra environment variables or variables from.
pub struct VarsFileSpec {
    /// Path of the file, absolute or relative to the owner's directory.
    pub path: String,
    /// Whether a missing file is an error.
    pub required: bool,
    /// Whether values from the file replace values already set.
    pub overwrite: bool,
}

/// A file spec as plain values.
pub open spec fn file_spec_view(f: VarsFileSpec) -> (Seq<char>, bool, bool) {
    (f.path@, f.required, f.overwrite)
}

/// File specs as plain values.
pub open spec fn file_specs_view(v: Seq<VarsFileSpec>) -> Seq<(Seq<char>, bool, bool)> {
    v.map_values(|f: VarsFileSpec| file_spec_view(f))
}

impl VarsFileSpec {
    /// The spec that a bare path stands for: optional, not overwriting.
    pub fn from_path(path: String) -> (r: VarsFileSpec)
        ensures
            r.path == path,
            !r.required,
            !r.overwrite,
    {
        VarsFileSpec { path, required: false, overwrite: false }
    }

    /// Whether the listed file is read, given whether it exists: a missing
    /// file is skipped unless it is required, in which case reading it fails.
    pub fn should_read(&self, exists: bool) -> (r: bool)
        ensures
            r == (self.required || exists),
    {
        self.required || exists
    }
}

/// A copy of a list of file specs.
pub fn copy_file_specs(v: &Vec<VarsFileSpec>) -> (r: Vec<VarsFileSpec>)
    ensures
        file_specs_view(r@) == file_specs_view(v@),
{
    let mut r: Vec<VarsFileSpec> = Vec::new();
    let mut i: usize = 0;
    while i < v.len()
        invariant
            i <= v@.len(),
            r@.len() == i,
            file_specs_view(r@) == file_specs_view(v@.subrange(0, i as int)),
        decreases v@.len() - i,
    {
        let f = &v[i];
        let ghost pre = r@;
        r.push(VarsFileSpec { path: f.path.clone(), required: f.required, overwrite: f.overwrite });
        proof {
            let a = file_specs_view(r@);
            let b = file_specs_view(v@.subrange(0, i + 1));
            assert(r@.len() == i + 1);
            assert(a.len() == b.len());
            assert(r@[i as int].path == v@[i as int].path);
            assert forall|j: int| 0 <= j < a.len() implies a[j] == b[j] by {
                if j < i {
                    assert(file_specs_view(pre)[j] == file_specs_view(v@.subrange(0, i as int))[j]);
                }
            }
            assert(a =~= b);
        }
        i = i + 1;
    }
    proof {
        assert(v@.subrange(0, v@.len() as int) =~= v@);
    }
    r
}

/// The fields shared by configuration files and tasks.
pub struct CommonFields {
    /// Working directory, absolute or relative to the owner's directory.
    pub wd: Option<String>,
    /// Environment variables.
    pub env: KeyedMap<String>,
    /// Files to read environment variables from.
    pub dotenv: Vec<VarsFileSpec>,
    /// Free-form variables.
    pub vars: KeyedMap<serde_json::Value>,
    /// Files to read variables from.
    pub vars_file: Vec<VarsFileSpec>,
    /// Named template snippets.
    pub incl: KeyedMap<String>,
    /// Bases to extend from.
    pub extend: StringOrVecString,
}

/// Common fields as plain values.
pub struct CommonView {
    pub wd: Option<Seq<char>>,
    pub env: Map<Seq<char>, String>,
    pub dotenv: Seq<(Seq<char>, bool, bool)>,
    pub vars: Map<Seq<char>, serde_json::Value>,
    pub vars_file: Seq<(Seq<char>, bool, bool)>,
    pub incl: Map<Seq<char>, String>,
    pub extend: Seq<Seq<char>>,
}

impl View for CommonFields {
    type V = CommonView;

    open spec fn view(&self) -> CommonView {
        CommonView {
            wd: opt_text(self.wd),
            env: self.env@,
            dotenv: file_specs_view(self.dotenv@),
            vars: self.vars@,
            vars_file: file_specs_view(self.vars_file@),
            incl: self.incl@,
            extend: self.extend.items(),
        }
    }
}

impl CommonFields {
    /// Each of the maps has unique keys.
    pub open spec fn wf(&self) -> bool {
        self.env.wf() && self.vars.wf() && self.incl.wf()
    }

    /// Fields with nothing set.
    pub fn new() -> (r: CommonFields)
        ensures
            r.wf(),
            r@.wd is None,
            r@.env == Map::<Seq<char>, String>::empty(),
            r@.dotenv.len() == 0,
            r@.vars == Map::<Seq<char>, serde_json::Value>::empty(),
            r@.vars_file.len() == 0,
            r@.incl == Map::<Seq<char>, String>::empty(),
            r@.extend.len() == 0,
    {
        CommonFields {
            wd: None,
            env: KeyedMap::new(),
            dotenv: Vec::new(),
            vars: KeyedMap::new(),
            vars_file: Vec::new(),
            incl: KeyedMap::new(),
            extend: StringOrVecString::empty(),
        }
    }

    /// An equal copy.
    pub fn duplicate(&self) -> (r: CommonFields)
        ensures
            r.wf() == self.wf(),
            r@ == self@,
    {
        CommonFields {
            wd: copy_opt_text(&self.wd),
            env: self.env.duplicate(),
            dotenv: copy_file_specs(&self.dotenv),
            vars: self.vars.duplicate(),
            vars_file: copy_file_specs(&self.vars_file),
            incl: self.incl.duplicate(),
            extend: self.extend.duplicate(),
        }
    }

    /// Loads environment variables read from a file; see `env_after_load`.
    pub fn apply_env_file(&mut self, loaded: &KeyedMap<String>, overwrite: bool)
        requires
            old(self).wf(),
            loaded.wf(),
        ensures
            final(self).wf(),
            final(self)@ == (CommonView { env: env_after_load(old(self)@.env, loaded@, overwrite), ..old(self)@ }),
    {
        self.env.load_entries(loaded, overwrite);
    }

    /// Loads variables read from a file; see `vars_after_load`.
    pub fn apply_vars_file(&mut self, loaded: &KeyedMap<serde_json::Value>, overwrite: bool)
        requires
            old(self).wf(),
            loaded.wf(),
        ensures
            final(self).wf(),
            final(self)@ == (CommonView { vars: vars_after_load(old(self)@.vars, loaded@, overwrite), ..old(self)@ }),
    {
        self.vars.load_entries(loaded, overwrite);
    }

    /// Makes the working directory, if set, absolute: resolved against
    /// `base`, with `.` standing for `base` itself.
    pub fn resolve_wd(&mut self, base: &str)
        ensures
            final(self).wf() == old(self).wf(),
            final(self)@ == (CommonView {
                wd: match old(self)@.wd {
                    Some(w) => Some(relative_to_base(base@, w)),
                    None => None,
                },
                ..old(self)@
            }),
    {
        let wd = match &self.wd {
            Some(w) => Some(get_path_relative_to_base(base, w.as_str())),
            None => None,
        };
        self.wd = wd;
    }

    /// Takes out the lists of environment files and of variable files, which
    /// are read once.
    pub fn take_file_specs(&mut self) -> (r: (Vec<VarsFileSpec>, Vec<VarsFileSpec>))
        ensures
            file_specs_view(r.0@) == old(self)@.dotenv,
            file_specs_view(r.1@) == old(self)@.vars_file,
            final(self).wf() == old(self).wf(),
            final(self)@ == (CommonView { dotenv: Seq::empty(), vars_file: Seq::empty(), ..old(self)@ }),
    {
        let d = copy_file_specs(&self.dotenv);
        let v = copy_file_specs(&self.vars_file);
        self.dotenv = Vec::new();
        self.vars_file = Vec::new();
        proof {
            assert(file_specs_view(self.dotenv@) =~= Seq::<(Seq<char>, bool, bool)>::empty());
            assert(file_specs_view(self.vars_file@) =~= Seq::<(Seq<char>, bool, bool)>::empty());
        }
        (d, v)
    }

    /// Inherits from `other`: the working directory only where none is set
    /// here; environment variables, variables and snippets only for keys
    /// that have no value here.
    pub fn extend(&mut self, other: &CommonFields)
        requires
            old(self).wf(),
            other.wf(),
        ensures
            final(self).wf(),
            final(self)@ == extended_common(old(self)@, other@),
    {
        if self.wd.is_none() {
            self.wd = copy_opt_text(&other.wd);
        }
        self.env.merge_prefer_existing(&other.env);
        self.vars.merge_prefer_existing(&other.vars);
        self.incl.merge_prefer_existing(&other.incl);
    }
}

/// Environment after loading `loaded` from a file into `env`: with
/// `overwrite` the file's values win, otherwise values already set win.
pub open spec fn env_after_load(env: Map<Seq<char>, String>, loaded: Map<Seq<char>, String>, overwrite: bool) -> Map<
    Seq<char>,
    String,
> {
    if overwrite {
        env.union_prefer_right(loaded)
    } else {
        loaded.union_prefer_right(env)
    }
}

/// Variables after loading `loaded` from a file into `vars`; see `env_after_load`.
pub open spec fn vars_after_load(
    vars: Map<Seq<char>, serde_json::Value>,
    loaded: Map<Seq<char>, serde_json::Value>,
    overwrite: bool,
) -> Map<Seq<char>, serde_json::Value> {
    if overwrite {
        vars.union_prefer_right(loaded)
    } else {
        loaded.union_prefer_right(vars)
    }
}

impl<V: Duplicate> KeyedMap<V> {
    /// Loads the entries of `loaded` into this map: with `overwrite` they
    /// replace values already set, otherwise only keys without a value get one.
    pub fn load_entries(&mut self, loaded: &KeyedMap<V>, overwrite: bool)
        requires
            old(self).wf(),
            loaded.wf(),
        ensures
            final(self).wf(),
            final(self)@ == if overwrite {
                old(self)@.union_prefer_right(loaded@)
            } else {
                loaded@.union_prefer_right(old(self)@)
            },
    {
        if overwrite {
            let ghost start = self@;
            let mut i: usize = 0;
            while i < loaded.entries.len()
                invariant
                    i <= loaded.entries@.len(),
                    loaded.wf(),
                    self.wf(),
                    self@ == start.union_prefer_right(crate::keyed_map::entries_map(loaded.entries@.subrange(0, i as int))),
                decreases loaded.entries@.len() - i,
            {
                let k = loaded.entries[i].0.clone();
                let v = loaded.entries[i].1.duplicate();
                self.insert(k, v);
                proof {
                    let post = loaded.entries@.subrange(0, (i + 1) as int);
                    assert(post.drop_last() =~= loaded.entries@.subrange(0, i as int));
                    assert(post.last() == loaded.entries@[i as int]);
                    assert(self@ =~= start.union_prefer_right(crate::keyed_map::entries_map(post)));
                }
                i = i + 1;
            }
            proof {
                assert(loaded.entries@.subrange(0, loaded.entries@.len() as int) =~= loaded.entries@);
            }
        } else {
            self.merge_prefer_existing(loaded);
        }
    }
}

/// Value `into` takes when inheriting from `from`: its own if it has one.
pub open spec fn inherit_if_unset<T>(into: Option<T>, from: Option<T>) -> Option<T> {
    if into is Some { into } else { from }
}

/// Common fields of `child` after inheriting from `base`.
pub open spec fn extended_common(child: CommonView, base: CommonView) -> CommonView {
    CommonView {
        wd: inherit_if_unset(child.wd, base.wd),
        env: base.env.union_prefer_right(child.env),
        vars: base.vars.union_prefer_right(child.vars),
        incl: base.incl.union_prefer_right(child.incl),
        ..child
    }
}

} // verus!
