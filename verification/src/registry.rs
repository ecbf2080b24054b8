//! App library (registration only: removing an app never deletes its
//! `.exe`), the data directory, and the Manager settings.
use vstd::prelude::*;
use crate::manager_error::ManagerError;
use crate::nt_file::join1;
use crate::run::{RunReport, RunStatus};
use crate::text::{chars_of, concat, decimal, extend_chars, owned, str_eq, string_of, u64_decimal};

verus! {

/// Schema version of `registry.json` (migration is explicit, never silent).
pub const REGISTRY_SCHEMA: u32 = 1;

/// Last known run.
#[derive(Debug, Clone, Copy, PartialEq, Eq, Structural)]
pub struct LastRun {
    /// Unix seconds.
    pub at_unix: u64,
    pub status: RunStatus,
    /// Exit code (when `Exited`).
    pub exit_code: Option<i32>,
}

/// A registered app (our metadata; the program stays the user's).
#[derive(Debug, Clone)]
pub struct AppEntry {
    /// Stable id (`<unix seconds>-<pid>-<counter>`).
    pub id: String,
    /// Display name.
    pub name: String,
    /// Path of the Windows `.exe`.
    pub exe_path: String,
    /// Associated capsule (optional).
    pub capsule_path: Option<String>,
    /// Registration time (Unix seconds).
    pub added_at_unix: u64,
    pub last_run: Option<LastRun>,
}

/// Library state derived from real data (never inferred from nothing).
#[derive(Debug, Clone, Copy, PartialEq, Eq, Structural)]
pub enum AppStatus {
    /// No pre-flight nor run yet.
    Unknown,
    /// Last pre-flight or run reported missing imports.
    ImportBlocked,
    /// Exited 0 (the only automatic positive state).
    Working,
    /// Has exited 0 before and now fails (possible regression).
    Regression,
    /// Last run crashed (`RINE-CRASH`).
    Crashed,
}

/// An entry as plain values: `(id, name, exe_path, capsule_path,
/// added_at_unix, last_run)`.
pub type EntryView = (Seq<char>, Seq<char>, Seq<char>, Option<Seq<char>>, u64, Option<LastRun>);

pub open spec fn opt_view(o: Option<String>) -> Option<Seq<char>> {
    match o {
        Some(s) => Some(s@),
        None => None,
    }
}

pub open spec fn entry_view(e: AppEntry) -> EntryView {
    (e.id@, e.name@, e.exe_path@, opt_view(e.capsule_path), e.added_at_unix, e.last_run)
}

fn copy_opt(o: &Option<String>) -> (r: Option<String>)
    ensures
        opt_view(r) == opt_view(*o),
{
    match o {
        Some(s) => Some(owned(s.as_str())),
        None => None,
    }
}

impl AppEntry {
    /// Field-by-field copy.
    pub fn copy(&self) -> (r: AppEntry)
        ensures
            entry_view(r) == entry_view(*self),
    {
        AppEntry {
            id: owned(self.id.as_str()),
            name: owned(self.name.as_str()),
            exe_path: owned(self.exe_path.as_str()),
            capsule_path: copy_opt(&self.capsule_path),
            added_at_unix: self.added_at_unix,
            last_run: self.last_run,
        }
    }
}

/// The library: apps in registration order, the file it lives in, and
/// the id counter of this session.
#[derive(Debug)]
pub struct AppRegistry {
    path: String,
    apps: Vec<AppEntry>,
    counter: u64,
}

pub open spec fn is_unknown_app(e: ManagerError, id: Seq<char>) -> bool {
    e matches ManagerError::InvalidRegistry(m) && m@ == "app "@ + id + " desconhecido"@
}

/// Index of the first app with id `id`.
pub open spec fn first_with_id(apps: Seq<EntryView>, id: Seq<char>) -> Option<int> {
    if exists|i: int| 0 <= i < apps.len() && apps[i].0 == id {
        Some(choose|i: int| 0 <= i < apps.len() && apps[i].0 == id && forall|j: int| 0 <= j < i ==> apps[j].0 != id)
    } else {
        None
    }
}

pub open spec fn with_capsule(e: EntryView, c: Option<Seq<char>>) -> EntryView {
    (e.0, e.1, e.2, c, e.4, e.5)
}

pub open spec fn with_last_run(e: EntryView, r: LastRun) -> EntryView {
    (e.0, e.1, e.2, e.3, e.4, Some(r))
}

fn unknown(id: &str) -> (e: ManagerError)
    ensures
        is_unknown_app(e, id@),
{
    let a = concat("app ", id);
    ManagerError::InvalidRegistry(concat(a.as_str(), " desconhecido"))
}

pub open spec fn app_id(now: u64, pid: u32, counter: u64) -> Seq<char> {
    decimal(now as nat) + "-"@ + decimal(pid as nat) + "-"@ + decimal(counter as nat)
}

/// Library state: the last run decides; no run is `Unknown`; a blocking
/// pre-flight wins over everything.
pub open spec fn status_spec(last: Option<LastRun>, preflight_blocked: bool) -> AppStatus {
    if preflight_blocked {
        AppStatus::ImportBlocked
    } else {
        match last {
            None => AppStatus::Unknown,
            Some(r) => match r.status {
                RunStatus::Crashed => AppStatus::Crashed,
                RunStatus::Blocked => AppStatus::ImportBlocked,
                RunStatus::Exited => if r.exit_code == Some(0i32) { AppStatus::Working } else { AppStatus::Regression },
            },
        }
    }
}

/// What an app's status says of its last run: `Working` exactly when the
/// last run exited with code 0 and no pre-flight blocks it; `Regression`
/// exactly when it exited with any other code (or none); a crash is
/// `Crashed`; never run is `Unknown`; a blocking pre-flight or a blocked
/// run is `ImportBlocked`.
pub proof fn law_app_status(last: Option<LastRun>, preflight_blocked: bool)
    ensures
        status_spec(last, preflight_blocked) == AppStatus::Working <==> !preflight_blocked && (last matches Some(r)
            && r.status == RunStatus::Exited && r.exit_code == Some(0i32)),
        status_spec(last, preflight_blocked) == AppStatus::Regression <==> !preflight_blocked && (last matches Some(r)
            && r.status == RunStatus::Exited && r.exit_code != Some(0i32)),
        status_spec(last, preflight_blocked) == AppStatus::Crashed <==> !preflight_blocked && (last matches Some(r)
            && r.status == RunStatus::Crashed),
        status_spec(last, preflight_blocked) == AppStatus::Unknown <==> !preflight_blocked && last is None,
        status_spec(last, preflight_blocked) == AppStatus::ImportBlocked <==> preflight_blocked || (last matches Some(r)
            && r.status == RunStatus::Blocked),
{
}

impl AppRegistry {
    pub closed spec fn apps_view(&self) -> Seq<EntryView> {
        self.apps@.map_values(|e: AppEntry| entry_view(e))
    }

    pub closed spec fn path_view(&self) -> Seq<char> {
        self.path@
    }

    pub closed spec fn counter_view(&self) -> u64 {
        self.counter
    }

    /// The id counter of this session.
    pub fn counter_value(&self) -> (c: u64)
        ensures
            c == self.counter_view(),
    {
        self.counter
    }

    /// Empty library stored at `path` (no file yet).
    pub fn empty(path: String) -> (r: AppRegistry)
        ensures
            r.apps_view().len() == 0,
            r.path_view() == path@,
            r.counter_view() == 0,
    {
        let r = AppRegistry { path, apps: Vec::new(), counter: 0 };
        assert(r.apps_view() =~= Seq::<EntryView>::empty());
        r
    }

    /// Library read from `path` with the given schema and apps: a schema
    /// other than `REGISTRY_SCHEMA` is an explicit error.
    pub fn from_file(path: String, schema: u32, apps: Vec<AppEntry>) -> (r: Result<AppRegistry, ManagerError>)
        ensures
            schema == REGISTRY_SCHEMA <==> r is Ok,
            match r {
                Ok(reg) => reg.apps_view() == apps@.map_values(|e: AppEntry| entry_view(e)) && reg.path_view() == path@
                    && reg.counter_view() == 0,
                Err(e) => e matches ManagerError::InvalidRegistry(m) && m@ == "schema "@ + decimal(schema as nat)
                    + " (esperado 1)"@,
            },
    {
        if schema != REGISTRY_SCHEMA {
            let d = string_of(u64_decimal(schema as u64).as_slice());
            let a = concat("schema ", d.as_str());
            return Err(ManagerError::InvalidRegistry(concat(a.as_str(), " (esperado 1)")));
        }
        Ok(AppRegistry { path, apps, counter: 0 })
    }

    /// File the library is saved to.
    pub fn path(&self) -> (r: &str)
        ensures
            r@ == self.path_view(),
    {
        self.path.as_str()
    }

    /// Registers an exe (the caller checked it exists; `is_file` says
    /// whether it is a regular file). The id is `<now>-<pid>-<counter>`;
    /// the name defaults to the file stem, else `"app"`. Returns a copy of
    /// the new entry.
    pub fn add(&mut self, exe_path: String, name: Option<String>, is_file: bool, stem: Option<String>, now: u64, pid: u32) -> (r: Result<AppEntry, ManagerError>)
        requires
            old(self).counter_view() < u64::MAX,
        ensures
            is_file <==> r is Ok,
            !is_file ==> final(self).apps_view() == old(self).apps_view() && final(self).counter_view() == old(self).counter_view(),
            !is_file ==> (r matches Err(ManagerError::UnsupportedPe(m)) && m@ == exe_path@ + " não é um arquivo"@),
            final(self).path_view() == old(self).path_view(),
            match r {
                Ok(e) => {
                    &&& final(self).counter_view() == old(self).counter_view() + 1
                    &&& entry_view(e) == (
                        app_id(now, pid, final(self).counter_view()),
                        match name {
                            Some(n) => n@,
                            None => match stem {
                                Some(s) => s@,
                                None => "app"@,
                            },
                        },
                        exe_path@,
                        None::<Seq<char>>,
                        now,
                        None::<LastRun>,
                    )
                    &&& final(self).apps_view() == old(self).apps_view().push(entry_view(e))
                },
                Err(_) => true,
            },
    {
        if !is_file {
            return Err(ManagerError::UnsupportedPe(concat(exe_path.as_str(), " não é um arquivo")));
        }
        self.counter = self.counter + 1;
        let mut id = u64_decimal(now);
        let dash = chars_of("-");
        extend_chars(&mut id, dash.as_slice());
        let p = u64_decimal(pid as u64);
        extend_chars(&mut id, p.as_slice());
        extend_chars(&mut id, dash.as_slice());
        let c = u64_decimal(self.counter);
        extend_chars(&mut id, c.as_slice());
        let name = match name {
            Some(n) => n,
            None => match stem {
                Some(s) => s,
                None => owned("app"),
            },
        };
        let entry = AppEntry { id: string_of(id.as_slice()), name, exe_path, capsule_path: None, added_at_unix: now, last_run: None };
        let copy = entry.copy();
        let ghost a0 = self.apps@;
        self.apps.push(entry);
        assert(self.apps_view() =~= a0.map_values(|e: AppEntry| entry_view(e)).push(entry_view(copy)));
        Ok(copy)
    }

    fn position(&self, id: &str) -> (r: Option<usize>)
        ensures
            match r {
                Some(i) => first_with_id(self.apps_view(), id@) == Some(i as int) && i < self.apps@.len(),
                None => first_with_id(self.apps_view(), id@) is None,
            },
    {
        let mut i: usize = 0;
        while i < self.apps.len()
            invariant
                i <= self.apps@.len(),
                forall|j: int| 0 <= j < i ==> self.apps_view()[j].0 != id@,
            decreases self.apps@.len() - i,
        {
            assert(self.apps_view()[i as int].0 == self.apps@[i as int].id@);
            if str_eq(self.apps[i].id.as_str(), id) {
                proof {
                    let v = self.apps_view();
                    let k = choose|k: int| 0 <= k < v.len() && v[k].0 == id@ && forall|j: int| 0 <= j < k ==> v[j].0 != id@;
                    if k < i {
                    } else if k > i {
                        assert(v[i as int].0 == id@);
                    }
                }
                return Some(i);
            }
            i += 1;
        }
        None
    }

    /// Removes ONLY the registration (the `.exe` stays on disk) of the
    /// first app with `id`, returning it.
    pub fn remove(&mut self, id: &str) -> (r: Result<AppEntry, ManagerError>)
        ensures
            final(self).path_view() == old(self).path_view(),
            final(self).counter_view() == old(self).counter_view(),
            match first_with_id(old(self).apps_view(), id@) {
                Some(i) => r matches Ok(e) && entry_view(e) == old(self).apps_view()[i]
                    && final(self).apps_view() == old(self).apps_view().remove(i),
                None => r matches Err(e) && is_unknown_app(e, id@) && final(self).apps_view() == old(self).apps_view(),
            },
    {
        match self.position(id) {
            None => Err(unknown(id)),
            Some(i) => {
                let ghost a0 = self.apps@;
                let e = self.apps.remove(i);
                assert(self.apps_view() =~= a0.map_values(|e: AppEntry| entry_view(e)).remove(i as int));
                Ok(e)
            },
        }
    }

    /// All apps, in registration order.
    pub fn list(&self) -> (r: &[AppEntry])
        ensures
            r@.map_values(|e: AppEntry| entry_view(e)) == self.apps_view(),
    {
        self.apps.as_slice()
    }

    /// The first app with `id`.
    pub fn get(&self, id: &str) -> (r: Option<&AppEntry>)
        ensures
            match first_with_id(self.apps_view(), id@) {
                Some(i) => r matches Some(e) && entry_view(*e) == self.apps_view()[i],
                None => r is None,
            },
    {
        match self.position(id) {
            None => None,
            Some(i) => Some(&self.apps[i]),
        }
    }

    /// Associates (or clears) the capsule of app `id` (validated at run
    /// time, not here).
    pub fn set_capsule(&mut self, id: &str, capsule: Option<String>) -> (r: Result<(), ManagerError>)
        ensures
            final(self).path_view() == old(self).path_view(),
            final(self).counter_view() == old(self).counter_view(),
            match first_with_id(old(self).apps_view(), id@) {
                Some(i) => r is Ok && final(self).apps_view() == old(self).apps_view().update(
                    i,
                    with_capsule(old(self).apps_view()[i], opt_view(capsule)),
                ),
                None => r matches Err(e) && is_unknown_app(e, id@) && final(self).apps_view() == old(self).apps_view(),
            },
    {
        match self.position(id) {
            None => Err(unknown(id)),
            Some(i) => {
                let ghost a0 = self.apps@;
                let old_e = self.apps[i].copy();
                let e = AppEntry {
                    id: old_e.id,
                    name: old_e.name,
                    exe_path: old_e.exe_path,
                    capsule_path: capsule,
                    added_at_unix: old_e.added_at_unix,
                    last_run: old_e.last_run,
                };
                self.apps.set(i, e);
                assert(self.apps_view() =~= a0.map_values(|e: AppEntry| entry_view(e)).update(
                    i as int,
                    with_capsule(a0.map_values(|e: AppEntry| entry_view(e))[i as int], opt_view(capsule)),
                ));
                Ok(())
            },
        }
    }

    /// Records the outcome of a run of app `id` at time `now`.
    pub fn record_run(&mut self, id: &str, report: &RunReport, now: u64) -> (r: Result<(), ManagerError>)
        ensures
            final(self).path_view() == old(self).path_view(),
            final(self).counter_view() == old(self).counter_view(),
            match first_with_id(old(self).apps_view(), id@) {
                Some(i) => r is Ok && final(self).apps_view() == old(self).apps_view().update(
                    i,
                    with_last_run(old(self).apps_view()[i], LastRun { at_unix: now, status: report.status, exit_code: report.exit_code }),
                ),
                None => r matches Err(e) && is_unknown_app(e, id@) && final(self).apps_view() == old(self).apps_view(),
            },
    {
        match self.position(id) {
            None => Err(unknown(id)),
            Some(i) => {
                let ghost a0 = self.apps@;
                let old_e = self.apps[i].copy();
                let lr = LastRun { at_unix: now, status: report.status, exit_code: report.exit_code };
                let e = AppEntry {
                    id: old_e.id,
                    name: old_e.name,
                    exe_path: old_e.exe_path,
                    capsule_path: old_e.capsule_path,
                    added_at_unix: old_e.added_at_unix,
                    last_run: Some(lr),
                };
                self.apps.set(i, e);
                assert(self.apps_view() =~= a0.map_values(|e: AppEntry| entry_view(e)).update(
                    i as int,
                    with_last_run(a0.map_values(|e: AppEntry| entry_view(e))[i as int], lr),
                ));
                Ok(())
            },
        }
    }

    /// Derived library state of `entry`.
    pub fn status_of(entry: &AppEntry, preflight_blocked: bool) -> (s: AppStatus)
        ensures
            s == status_spec(entry.last_run, preflight_blocked),
            s == AppStatus::Working <==> !preflight_blocked && (entry.last_run matches Some(r) && r.status
                == RunStatus::Exited && r.exit_code == Some(0i32)),
            s == AppStatus::Regression <==> !preflight_blocked && (entry.last_run matches Some(r) && r.status
                == RunStatus::Exited && r.exit_code != Some(0i32)),
    {
        proof {
            law_app_status(entry.last_run, preflight_blocked);
        }
        if preflight_blocked {
            return AppStatus::ImportBlocked;
        }
        match &entry.last_run {
            None => AppStatus::Unknown,
            Some(r) => match r.status {
                RunStatus::Crashed => AppStatus::Crashed,
                RunStatus::Blocked => AppStatus::ImportBlocked,
                RunStatus::Exited => {
                    let zero = match r.exit_code {
                        Some(c) => c == 0,
                        None => false,
                    };
                    if zero { AppStatus::Working } else { AppStatus::Regression }
                },
            },
        }
    }

    /// Default registry file inside the Manager data directory.
    pub fn default_path(data_dir: &str) -> (r: String)
        ensures
            r@ == join1(data_dir@, "registry.json"@),
    {
        join_path(data_dir, "registry.json")
    }
}

/// `dir` joined with a relative component (as `PathBuf::join`).
pub fn join_path(dir: &str, comp: &str) -> (r: String)
    ensures
        r@ == join1(dir@, comp@),
{
    let mut out = chars_of(dir);
    if out.len() > 0 && out[out.len() - 1] != '/' {
        out.push('/');
    }
    let c = chars_of(comp);
    extend_chars(&mut out, c.as_slice());
    string_of(out.as_slice())
}

/// Manager data directory: `$XDG_DATA_HOME/rine-manager`, else
/// `$HOME/.local/share/rine-manager` (`/tmp` without `HOME`).
pub open spec fn data_dir_spec(xdg: Option<Seq<char>>, home: Option<Seq<char>>) -> Seq<char> {
    let base = match xdg {
        Some(x) => x,
        None => join1(match home {
            Some(h) => h,
            None => "/tmp"@,
        }, ".local/share"@),
    };
    join1(base, "rine-manager"@)
}

pub fn data_dir(xdg_data_home: Option<&str>, home: Option<&str>) -> (r: String)
    ensures
        r@ == data_dir_spec(
            match xdg_data_home {
                Some(x) => Some(x@),
                None => None,
            },
            match home {
                Some(h) => Some(h@),
                None => None,
            },
        ),
{
    let base = match xdg_data_home {
        Some(x) => owned(x),
        None => {
            let h = match home {
                Some(h) => h,
                None => "/tmp",
            };
            join_path(h, ".local/share")
        },
    };
    join_path(base.as_str(), "rine-manager")
}


/// Adding an app and then removing it by its id gives the library back
/// unchanged and hands the added entry back, when no app had that id.
pub proof fn law_add_then_remove_roundtrip(apps: Seq<EntryView>, e: EntryView)
    requires
        first_with_id(apps, e.0) is None,
    ensures
        first_with_id(apps.push(e), e.0) == Some(apps.len() as int),
        apps.push(e)[apps.len() as int] == e,
        apps.push(e).remove(apps.len() as int) == apps,
{
    let a = apps.push(e);
    assert(a[apps.len() as int].0 == e.0);
    assert forall|j: int| 0 <= j < apps.len() implies a[j].0 != e.0 by {
        assert(a[j] == apps[j]);
    }
    let k = choose|i: int| 0 <= i < a.len() && a[i].0 == e.0 && forall|j: int| 0 <= j < i ==> a[j].0 != e.0;
    if k < apps.len() {
        assert(a[k] == apps[k]);
    }
    assert(a.remove(apps.len() as int) =~= apps);
}

} // verus!
