//! The script endpoints: save, get, delete, list, update and reload.
//! Scripts that run on test results are kept in step in the registry.

use vstd::prelude::*;
use crate::api::errors::IkError;
use crate::db::read::scripts::scripts_found;
use crate::db::schema::{DbExecutor, Store};
use crate::db::scripts::{
    script_of_row, script_row_index, with_saved_script, with_updated_script_row,
    without_script_row,
};
use crate::engine::{is_uuid_v4, new_uuid, now_micros};
use crate::engine::streams::{
    script_type_name, with_updated_script, without_script, Script, ScriptStatus, ScriptType,
    ScriptView, Streamer,
};
use crate::text::views;

verus! {

/// The identifier a new script is saved under: the two scripts of the
/// user interface are known by the name of their type, so that saving
/// one again cannot add a second; every other script gets `fresh`.
pub open spec fn new_script_id(script_type: ScriptType, fresh: Seq<char>) -> Seq<char> {
    match script_type {
        ScriptType::UITest => script_type_name(ScriptType::UITest),
        ScriptType::UITestResult => script_type_name(ScriptType::UITestResult),
        _ => fresh,
    }
}

/// A script as it is saved: with its identifier, enabled, added at `now`.
pub open spec fn new_script(script: ScriptView, fresh: Seq<char>, now: i64) -> ScriptView {
    ScriptView {
        id: Some(new_script_id(script.script_type, fresh)),
        status: Some(ScriptStatus::Enabled),
        date_added: Some(now),
        ..script
    }
}

/// Whether scripts of the type run on test results.
pub open spec fn runs_on_results(t: ScriptType) -> bool {
    t == ScriptType::StreamTest || t == ScriptType::ReportFilterTestResult
}

/// What is said where there is no such script.
pub open spec fn script_not_found() -> Seq<char> {
    "script not found"@
}

/// What is said where the path lacks the identifier.
pub open spec fn missing_script_id() -> Seq<char> {
    "missing scriptId path parameter"@
}

/// Saves a new script at the time `now`, with `fresh` as the identifier
/// where the type does not give one, and registers it if it runs on
/// test results. Hands the script back as it was saved.
pub fn save_script_at(db: &mut DbExecutor, streamer: &mut Streamer, script: Script, fresh: String, now: i64) -> (saved:
    Script)
    ensures
        saved@ == new_script(script@, fresh@, now),
        final(db)@ == (Store {
            scripts: with_saved_script(old(db)@.scripts, new_script(script@, fresh@, now)),
            ..old(db)@
        }),
        final(streamer)@ == if runs_on_results(script.script_type) {
            old(streamer)@.push(new_script(script@, fresh@, now))
        } else {
            old(streamer)@
        },
{
    let id = match script.script_type {
        ScriptType::UITest => ScriptType::UITest.to_string(),
        ScriptType::UITestResult => ScriptType::UITestResult.to_string(),
        _ => fresh,
    };
    let new_script = Script {
        id: Some(id),
        name: script.name,
        source: script.source,
        script_type: script.script_type,
        date_added: Some(now),
        status: Some(ScriptStatus::Enabled),
    };
    db.save_script(&new_script);
    if new_script.script_type.runs_on_test_results() {
        streamer.add_script(new_script.clone());
    }
    new_script
}

/// Saves a new script now, under a fresh identifier where the type does
/// not give one.
pub fn save_script(db: &mut DbExecutor, streamer: &mut Streamer, script: Script) -> (saved: Script)
    ensures
        exists|fresh: Seq<char>, now: i64|
            {
                &&& is_uuid_v4(fresh)
                &&& saved@ == new_script(script@, fresh, now)
                &&& final(db)@ == (Store {
                    scripts: with_saved_script(old(db)@.scripts, new_script(script@, fresh, now)),
                    ..old(db)@
                })
                &&& final(streamer)@ == if runs_on_results(script.script_type) {
                    old(streamer)@.push(new_script(script@, fresh, now))
                } else {
                    old(streamer)@
                }
            },
{
    let fresh = new_uuid();
    let now = now_micros();
    let ghost shown = fresh@;
    let ghost asked = script@;
    let saved = save_script_at(db, streamer, script, fresh, now);
    assert(saved@ == new_script(asked, shown, now));
    saved
}

/// The saved script with the identifier of the path.
pub fn get_script(db: &DbExecutor, script_id: Option<String>) -> (r: Result<Script, IkError>)
    ensures
        match r {
            Ok(script) => script_id is Some && script_row_index(db@.scripts, script_id->0@)
                is Some && script@ == script_of_row(
                db@.scripts[script_row_index(db@.scripts, script_id->0@)->0],
            ),
            Err(IkError::NotFound(msg)) => script_id is Some && script_row_index(
                db@.scripts,
                script_id->0@,
            ) is None && msg@ == script_not_found(),
            Err(IkError::BadRequest(msg)) => script_id is None && msg@ == missing_script_id(),
            Err(IkError::InternalError) => false,
        },
{
    match script_id {
        Some(id) => match db.get_script(id.as_str()) {
            Some(script) => Ok(script),
            None => Err(IkError::NotFound("script not found".to_string())),
        },
        None => Err(IkError::BadRequest("missing scriptId path parameter".to_string())),
    }
}

/// Deletes the saved script with the identifier of the path, takes it
/// out of the registry if it runs on test results, and hands it back.
pub fn delete_script(db: &mut DbExecutor, streamer: &mut Streamer, script_id: Option<String>) -> (r:
    Result<Script, IkError>)
    ensures
        match r {
            Ok(script) => {
                &&& script_id is Some
                &&& script_row_index(old(db)@.scripts, script_id->0@) is Some
                &&& script@ == script_of_row(
                    old(db)@.scripts[script_row_index(old(db)@.scripts, script_id->0@)->0],
                )
                &&& final(db)@ == (Store {
                    scripts: without_script_row(old(db)@.scripts, script_id->0@),
                    ..old(db)@
                })
                &&& final(streamer)@ == if runs_on_results(script.script_type) {
                    without_script(old(streamer)@, script@.id)
                } else {
                    old(streamer)@
                }
            },
            Err(IkError::NotFound(msg)) => script_id is Some && script_row_index(
                old(db)@.scripts,
                script_id->0@,
            ) is None && msg@ == script_not_found() && final(db)@ == old(db)@ && final(streamer)@
                == old(streamer)@,
            Err(IkError::BadRequest(msg)) => script_id is None && msg@ == missing_script_id()
                && final(db)@ == old(db)@ && final(streamer)@ == old(streamer)@,
            Err(IkError::InternalError) => false,
        },
{
    match script_id {
        Some(id) => match db.delete_script(id.as_str()) {
            Some(script) => {
                if script.script_type.runs_on_test_results() {
                    streamer.remove_script(&script);
                }
                Ok(script)
            },
            None => Err(IkError::NotFound("script not found".to_string())),
        },
        None => Err(IkError::BadRequest("missing scriptId path parameter".to_string())),
    }
}

/// All saved scripts, by name.
pub fn list_scripts(db: &DbExecutor) -> (scripts: Vec<Script>)
    ensures
        views(scripts@) == scripts_found(db@, None),
{
    db.get_all_scripts(&None)
}

/// A script with the identifier of the path.
pub open spec fn with_id(script: ScriptView, id: Seq<char>) -> ScriptView {
    ScriptView { id: Some(id), ..script }
}

/// Gives the saved script with the identifier of the path the name,
/// source and status of `script`, keeps the registry in step if the
/// script runs on test results, and hands the script back.
pub fn update_script(db: &mut DbExecutor, streamer: &mut Streamer, script_id: Option<String>, script: Script) -> (r:
    Result<Script, IkError>)
    ensures
        match r {
            Ok(updated) => {
                &&& script_id is Some
                &&& updated@ == with_id(script@, script_id->0@)
                &&& final(db)@ == (Store {
                    scripts: with_updated_script_row(old(db)@.scripts, updated@),
                    ..old(db)@
                })
                &&& final(streamer)@ == if runs_on_results(script.script_type) {
                    with_updated_script(old(streamer)@, updated@)
                } else {
                    old(streamer)@
                }
            },
            Err(IkError::BadRequest(msg)) => script_id is None && msg@ == missing_script_id()
                && final(db)@ == old(db)@ && final(streamer)@ == old(streamer)@,
            Err(_) => false,
        },
{
    match script_id {
        Some(id) => {
            let new_script = Script {
                id: Some(id),
                name: script.name,
                source: script.source,
                script_type: script.script_type,
                date_added: script.date_added,
                status: script.status,
            };
            db.update_script(&new_script);
            if new_script.script_type.runs_on_test_results() {
                streamer.update_script(new_script.clone());
            }
            Ok(new_script)
        },
        None => Err(IkError::BadRequest("missing scriptId path parameter".to_string())),
    }
}

/// The types of the scripts that the registry holds.
pub open spec fn registry_types() -> Seq<ScriptType> {
    seq![ScriptType::StreamTest, ScriptType::ReportFilterTestResult]
}

/// Fills the registry anew from the saved scripts that run on test results.
pub fn reload_scripts(db: &DbExecutor, streamer: &mut Streamer)
    ensures
        final(streamer)@ == scripts_found(db@, Some(registry_types())),
{
    let mut types: Vec<ScriptType> = Vec::new();
    types.push(ScriptType::StreamTest);
    types.push(ScriptType::ReportFilterTestResult);
    assert(types@ =~= registry_types());
    let wanted = Some(types);
    let scripts = db.get_all_scripts(&wanted);
    streamer.update_scripts(scripts);
}

} // verus!
