//! The gateway configuration: the list of applications to merge, and the
//! validation the driver runs before any merging starts — field
//! uniqueness across applications and the shape of prefixes and mount
//! paths. Reading the configuration file is I/O and lives with the caller.

use vstd::prelude::*;

verus! {

/// One application: an optional display name, the component prefix, the
/// external mount path, and the location of the source document.
#[derive(Debug)]
pub struct Application {
    pub name: Option<String>,
    pub prefix: String,
    pub path: String,
    pub source: String,
}

/// Spec-level mirror of `Application`.
pub struct SpecApplication {
    pub name: Option<Seq<char>>,
    pub prefix: Seq<char>,
    pub path: Seq<char>,
    pub source: Seq<char>,
}

impl View for Application {
    type V = SpecApplication;

    open spec fn view(&self) -> SpecApplication {
        SpecApplication {
            name: match self.name {
                Option::Some(n) => Option::Some(n@),
                Option::None => Option::None,
            },
            prefix: self.prefix@,
            path: self.path@,
            source: self.source@,
        }
    }
}

/// The views of a sequence of applications, element by element.
pub open spec fn apps_view(v: Seq<Application>) -> Seq<SpecApplication> {
    v.map_values(|a: Application| a.view())
}

/// The whole configuration: the applications to merge, in order.
#[derive(Debug)]
pub struct Config {
    pub applications: Vec<Application>,
}

impl View for Config {
    type V = Seq<SpecApplication>;

    open spec fn view(&self) -> Seq<SpecApplication> {
        apps_view(self.applications@)
    }
}

/// Which field of an application a uniqueness check reads.
#[derive(Clone, Copy, PartialEq, Eq, Structural, Debug)]
pub enum AppField {
    Prefix,
    Path,
    Source,
}

/// The chosen field's value.
pub open spec fn field_of(a: SpecApplication, field: AppField) -> Seq<char> {
    match field {
        AppField::Prefix => a.prefix,
        AppField::Path => a.path,
        AppField::Source => a.source,
    }
}

/// Whether the chosen field is pairwise distinct across applications.
pub open spec fn all_distinct(apps: Seq<SpecApplication>, field: AppField) -> bool {
    forall|i: int, j: int|
        0 <= i < j < apps.len() ==> field_of(#[trigger] apps[i], field) != field_of(
            #[trigger] apps[j],
            field,
        )
}

/// A character that may start an identifier: a letter or `_`.
pub open spec fn is_name_start(c: char) -> bool {
    ('A' <= c && c <= 'Z') || ('a' <= c && c <= 'z') || c == '_'
}

/// A character that may continue an identifier: a letter, a digit or `_`.
pub open spec fn is_name_char(c: char) -> bool {
    is_name_start(c) || ('0' <= c && c <= '9')
}

/// A valid prefix: an identifier — a letter or `_`, then letters, digits
/// or `_`.
pub open spec fn prefix_valid(s: Seq<char>) -> bool {
    s.len() > 0 && is_name_start(s[0]) && forall|i: int|
        1 <= i < s.len() ==> is_name_char(#[trigger] s[i])
}

/// A valid mount path: `/`, then one or more non-empty `/`-separated
/// segments — so it never ends in `/` and never holds `//`.
pub open spec fn mount_path_valid(s: Seq<char>) -> bool {
    s.len() >= 2 && s[0] == '/' && s[s.len() - 1] != '/' && forall|i: int|
        0 <= i < s.len() - 1 ==> !((#[trigger] s[i]) == '/' && s[i + 1] == '/')
}

/// The message a failed uniqueness check carries.
pub open spec fn unique_error(name: Seq<char>) -> Seq<char> {
    name + " are not unique"@
}

/// The per-application validation, in order: the first application with
/// an invalid prefix or path decides the error, prefix first.
pub open spec fn validate_apps(apps: Seq<SpecApplication>) -> Result<(), Seq<char>>
    decreases apps,
{
    if apps.len() == 0 {
        Result::Ok(())
    } else if !prefix_valid(apps[0].prefix) {
        Result::Err("Application prefix "@ + apps[0].prefix + " is not valid"@)
    } else if !mount_path_valid(apps[0].path) {
        Result::Err("Application path "@ + apps[0].path + " is not valid"@)
    } else {
        validate_apps(apps.drop_first())
    }
}

/// The whole validation: prefixes, paths and source locations must each
/// be unique across applications (checked in that order), then every
/// application's prefix and path must be well-formed; the first failure
/// decides the error.
pub open spec fn validate_spec(apps: Seq<SpecApplication>) -> Result<(), Seq<char>> {
    if !all_distinct(apps, AppField::Prefix) {
        Result::Err(unique_error("Prefixes"@))
    } else if !all_distinct(apps, AppField::Path) {
        Result::Err(unique_error("Paths"@))
    } else if !all_distinct(apps, AppField::Source) {
        Result::Err(unique_error("Specs"@))
    } else {
        validate_apps(apps)
    }
}

/// Skipping applications that validate cleanly does not change the
/// outcome of `validate_apps`.
proof fn lemma_validate_apps_skip(apps: Seq<SpecApplication>, i: int)
    requires
        0 <= i <= apps.len(),
        forall|k: int|
            0 <= k < i ==> prefix_valid((#[trigger] apps[k]).prefix) && mount_path_valid(
                apps[k].path,
            ),
    ensures
        validate_apps(apps) == validate_apps(apps.skip(i)),
    decreases i,
{
    if i > 0 {
        assert(prefix_valid(apps[0].prefix) && mount_path_valid(apps[0].path));
        assert(validate_apps(apps) == validate_apps(apps.drop_first()));
        let rest = apps.drop_first();
        assert forall|k: int|
            0 <= k < i - 1 implies prefix_valid((#[trigger] rest[k]).prefix)
            && mount_path_valid(rest[k].path) by {
            assert(rest[k] == apps[k + 1]);
        }
        lemma_validate_apps_skip(rest, i - 1);
        assert(rest.skip(i - 1) =~= apps.skip(i));
    } else {
        assert(apps.skip(0) =~= apps);
    }
}

fn prefix_valid_exec(s: &String) -> (res: bool)
    ensures
        res == prefix_valid(s@),
{
    let st = s.as_str();
    let len = st.unicode_len();
    if len == 0 {
        return false;
    }
    let c0 = st.get_char(0);
    if !(('A' <= c0 && c0 <= 'Z') || ('a' <= c0 && c0 <= 'z') || c0 == '_') {
        return false;
    }
    let mut i: usize = 1;
    while i < len
        invariant
            1 <= i <= len,
            len == s@.len(),
            st@ == s@,
            forall|k: int| 1 <= k < i ==> is_name_char(#[trigger] s@[k]),
        decreases len - i,
    {
        let c = st.get_char(i);
        if !(('A' <= c && c <= 'Z') || ('a' <= c && c <= 'z') || c == '_' || ('0' <= c && c
            <= '9')) {
            return false;
        }
        i += 1;
    }
    true
}

fn mount_path_valid_exec(s: &String) -> (res: bool)
    ensures
        res == mount_path_valid(s@),
{
    let st = s.as_str();
    let len = st.unicode_len();
    if len < 2 {
        return false;
    }
    if st.get_char(0) != '/' {
        return false;
    }
    if st.get_char(len - 1) == '/' {
        return false;
    }
    let mut i: usize = 0;
    while i < len - 1
        invariant
            0 <= i <= len - 1,
            len == s@.len(),
            st@ == s@,
            forall|k: int| 0 <= k < i ==> !((#[trigger] s@[k]) == '/' && s@[k + 1] == '/'),
        decreases len - i,
    {
        if st.get_char(i) == '/' && st.get_char(i + 1) == '/' {
            return false;
        }
        i += 1;
    }
    true
}

fn app_field<'a>(a: &'a Application, field: AppField) -> (res: &'a String)
    ensures
        res@ == field_of(a@, field),
{
    match field {
        AppField::Prefix => &a.prefix,
        AppField::Path => &a.path,
        AppField::Source => &a.source,
    }
}

impl Config {
    /// Checks that the chosen field is unique across the given
    /// applications; a failure names the field in its message.
    pub fn check_unique(
        &self,
        applications: &Vec<Application>,
        field: AppField,
        name: &str,
    ) -> (res: Result<(), String>)
        ensures
            (match res {
                Result::Ok(()) => all_distinct(apps_view(applications@), field),
                Result::Err(m) => !all_distinct(apps_view(applications@), field) && m@
                    == unique_error(name@),
            }),
    {
        let mut i: usize = 0;
        while i < applications.len()
            invariant
                i <= applications.len(),
                forall|a: int, b: int|
                    0 <= a < b < i ==> field_of(#[trigger] apps_view(applications@)[a], field)
                        != field_of(#[trigger] apps_view(applications@)[b], field),
            decreases applications.len() - i,
        {
            let mut j: usize = 0;
            while j < i
                invariant
                    j <= i < applications.len(),
                    forall|a: int, b: int|
                        0 <= a < b < i ==> field_of(
                            #[trigger] apps_view(applications@)[a],
                            field,
                        ) != field_of(#[trigger] apps_view(applications@)[b], field),
                    forall|b: int|
                        0 <= b < j ==> field_of(#[trigger] apps_view(applications@)[b], field)
                            != field_of(apps_view(applications@)[i as int], field),
                decreases i - j,
            {
                if app_field(&applications[j], field).eq(app_field(&applications[i], field)) {
                    proof {
                        assert(field_of(apps_view(applications@)[j as int], field) == field_of(
                            apps_view(applications@)[i as int],
                            field,
                        ));
                    }
                    let mut m = name.to_owned();
                    m.append(" are not unique");
                    proof {
                        assert(m@ =~= unique_error(name@));
                    }
                    return Result::Err(m);
                }
                j += 1;
            }
            i += 1;
        }
        Result::Ok(())
    }

    /// Validates the whole configuration: uniqueness of prefixes, paths
    /// and source locations, then the shape of every prefix and mount
    /// path, reporting the first failure.
    pub fn validate(&self) -> (res: Result<(), String>)
        ensures
            (match res {
                Result::Ok(()) => validate_spec(self@) == Result::<(), Seq<char>>::Ok(()),
                Result::Err(m) => validate_spec(self@) == Result::<(), Seq<char>>::Err(m@),
            }),
    {
        if let Result::Err(m) = self.check_unique(&self.applications, AppField::Prefix, "Prefixes")
            {
            return Result::Err(m);
        }
        if let Result::Err(m) = self.check_unique(&self.applications, AppField::Path, "Paths") {
            return Result::Err(m);
        }
        if let Result::Err(m) = self.check_unique(&self.applications, AppField::Source, "Specs") {
            return Result::Err(m);
        }
        let mut i: usize = 0;
        while i < self.applications.len()
            invariant
                i <= self.applications.len(),
                all_distinct(self@, AppField::Prefix),
                all_distinct(self@, AppField::Path),
                all_distinct(self@, AppField::Source),
                forall|k: int|
                    0 <= k < i ==> prefix_valid((#[trigger] self@[k]).prefix)
                        && mount_path_valid(self@[k].path),
            decreases self.applications.len() - i,
        {
            if !prefix_valid_exec(&self.applications[i].prefix) {
                let mut m = "Application prefix ".to_owned();
                m.append(self.applications[i].prefix.as_str());
                m.append(" is not valid");
                proof {
                    lemma_validate_apps_skip(self@, i as int);
                    assert(self@.skip(i as int)[0] == self@[i as int]);
                    assert(validate_apps(self@.skip(i as int)) == Result::<(), Seq<char>>::Err(
                        "Application prefix "@ + self@[i as int].prefix + " is not valid"@,
                    ));
                }
                return Result::Err(m);
            }
            if !mount_path_valid_exec(&self.applications[i].path) {
                let mut m = "Application path ".to_owned();
                m.append(self.applications[i].path.as_str());
                m.append(" is not valid");
                proof {
                    lemma_validate_apps_skip(self@, i as int);
                    assert(self@.skip(i as int)[0] == self@[i as int]);
                    assert(validate_apps(self@.skip(i as int)) == Result::<(), Seq<char>>::Err(
                        "Application path "@ + self@[i as int].path + " is not valid"@,
                    ));
                }
                return Result::Err(m);
            }
            i += 1;
        }
        proof {
            lemma_validate_apps_skip(self@, self.applications.len() as int);
            assert(self@.skip(self.applications.len() as int).len() == 0);
        }
        Result::Ok(())
    }
}

} // verus!
