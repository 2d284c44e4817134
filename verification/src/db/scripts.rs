//! Writing scripts: save, delete and update.

use vstd::prelude::*;
use crate::db::schema::{DbExecutor, ScriptDb, ScriptDbView, Store};
use crate::engine::streams::{
    script_type_as_int, script_type_of_i32, Script, ScriptStatus, ScriptType, ScriptView,
};
use crate::seqs::{first_where, lemma_first_where_at, lemma_first_where_none};
use crate::text::{lemma_views_push, lemma_views_update, opt_view, views};

verus! {

/// The number a script status is stored as.
pub open spec fn script_status_as_int(s: ScriptStatus) -> int {
    match s {
        ScriptStatus::Enabled => 0,
        ScriptStatus::Disabled => 1,
    }
}

/// The status a stored number stands for: zero is enabled, anything
/// else disabled.
pub open spec fn script_status_of_i32(v: i32) -> ScriptStatus {
    if v == 0 {
        ScriptStatus::Enabled
    } else {
        ScriptStatus::Disabled
    }
}

/// Whether a script has all that a row needs: identifier, date and status.
pub open spec fn is_complete(script: ScriptView) -> bool {
    script.id is Some && script.date_added is Some && script.status is Some
}

/// The row of a complete script.
pub open spec fn script_row(script: ScriptView) -> ScriptDbView
    recommends
        is_complete(script),
{
    ScriptDbView {
        id: script.id->0,
        name: script.name,
        source: script.source,
        script_type: script_type_as_int(script.script_type) as i32,
        date_added: script.date_added->0,
        status: script_status_as_int(script.status->0) as i32,
    }
}

/// The script that a row stands for.
pub open spec fn script_of_row(row: ScriptDbView) -> ScriptView {
    ScriptView {
        id: Some(row.id),
        name: row.name,
        source: row.source,
        script_type: script_type_of_i32(row.script_type),
        date_added: Some(row.date_added),
        status: Some(script_status_of_i32(row.status)),
    }
}

/// A complete script survives being stored.
pub proof fn lemma_script_row_round_trip(script: ScriptView)
    requires
        is_complete(script),
    ensures
        script_of_row(script_row(script)) == script,
{
}

/// The row with the identifier.
pub open spec fn script_row_index(scripts: Seq<ScriptDbView>, id: Seq<char>) -> Option<int> {
    first_where(scripts, |row: ScriptDbView| row.id == id)
}

/// Whether a script can be saved: it is complete and its identifier is new.
pub open spec fn can_save(scripts: Seq<ScriptDbView>, script: ScriptView) -> bool {
    is_complete(script) && script_row_index(scripts, script.id->0) is None
}

/// The script table after a script was saved, if it could be.
pub open spec fn with_saved_script(scripts: Seq<ScriptDbView>, script: ScriptView) -> Seq<ScriptDbView> {
    if can_save(scripts, script) {
        scripts.push(script_row(script))
    } else {
        scripts
    }
}

/// The script table without the row with the identifier.
pub open spec fn without_script_row(scripts: Seq<ScriptDbView>, id: Seq<char>) -> Seq<ScriptDbView> {
    match script_row_index(scripts, id) {
        Some(i) => scripts.remove(i),
        None => scripts,
    }
}

/// Whether a script can be updated: it has an identifier that the table
/// knows, and a status.
pub open spec fn can_update(scripts: Seq<ScriptDbView>, script: ScriptView) -> bool {
    script.id is Some && script.status is Some && script_row_index(scripts, script.id->0) is Some
}

/// The script table after a script was updated, if it could be: the row
/// takes over name, source and status.
pub open spec fn with_updated_script_row(scripts: Seq<ScriptDbView>, script: ScriptView) -> Seq<
    ScriptDbView,
> {
    if can_update(scripts, script) {
        let i = script_row_index(scripts, script.id->0)->0;
        scripts.update(
            i,
            ScriptDbView {
                name: script.name,
                source: script.source,
                status: script_status_as_int(script.status->0) as i32,
                ..scripts[i]
            },
        )
    } else {
        scripts
    }
}

pub(crate) fn find_script_row_index(scripts: &Vec<ScriptDb>, id: &str) -> (r: Option<usize>)
    ensures
        match r {
            Some(i) => script_row_index(views(scripts@), id@) == Some(i as int) && i
                < scripts.len(),
            None => script_row_index(views(scripts@), id@) is None,
        },
{
    let mut i: usize = 0;
    while i < scripts.len()
        invariant
            i <= scripts.len(),
            forall|k: int| 0 <= k < i ==> views(scripts@)[k].id != id@,
        decreases scripts.len() - i,
    {
        if scripts[i].id.as_str().eq(id) {
            proof {
                lemma_first_where_at(views(scripts@), |row: ScriptDbView| row.id == id@, i as int);
            }
            return Some(i);
        }
        i += 1;
    }
    proof {
        lemma_first_where_none(views(scripts@), |row: ScriptDbView| row.id == id@);
    }
    None
}

fn status_number(status: ScriptStatus) -> (v: i32)
    ensures
        v == script_status_as_int(status),
{
    match status {
        ScriptStatus::Enabled => 0,
        ScriptStatus::Disabled => 1,
    }
}

/// The script that a row stands for.
pub fn script_from_row(row: &ScriptDb) -> (script: Script)
    ensures
        script@ == script_of_row(row@),
{
    Script {
        id: Some(row.id.clone()),
        date_added: Some(row.date_added),
        script_type: ScriptType::from(row.script_type),
        name: row.name.clone(),
        source: row.source.clone(),
        status: Some(
            if row.status == 0 {
                ScriptStatus::Enabled
            } else {
                ScriptStatus::Disabled
            },
        ),
    }
}

impl DbExecutor {
    /// Saves a script that has an identifier, a date and a status, under
    /// an identifier that no saved script has. Says whether it did.
    pub fn save_script(&mut self, script: &Script) -> (saved: bool)
        ensures
            saved == can_save(old(self)@.scripts, script@),
            final(self)@ == (Store {
                scripts: with_saved_script(old(self)@.scripts, script@),
                ..old(self)@
            }),
    {
        let id = match &script.id {
            Some(id) => id,
            None => {
                return false;
            },
        };
        let date_added: i64 = match script.date_added {
            Some(d) => d,
            None => {
                return false;
            },
        };
        let status = match script.status {
            Some(s) => s,
            None => {
                return false;
            },
        };
        if find_script_row_index(&self.scripts, id.as_str()).is_some() {
            return false;
        }
        let row = ScriptDb {
            id: id.clone(),
            name: script.name.clone(),
            source: script.source.clone(),
            script_type: script.script_type.as_i32(),
            date_added,
            status: status_number(status),
        };
        proof {
            lemma_views_push(self.scripts@, row);
        }
        self.scripts.push(row);
        true
    }

    /// Deletes the script with the identifier and hands it back.
    pub fn delete_script(&mut self, id: &str) -> (removed: Option<Script>)
        ensures
            opt_view(removed) == match script_row_index(old(self)@.scripts, id@) {
                Some(i) => Some(script_of_row(old(self)@.scripts[i])),
                None => None,
            },
            final(self)@ == (Store {
                scripts: without_script_row(old(self)@.scripts, id@),
                ..old(self)@
            }),
    {
        match find_script_row_index(&self.scripts, id) {
            Some(i) => {
                let row = self.scripts.remove(i);
                assert(views(self.scripts@) =~= views(old(self).scripts@).remove(i as int));
                Some(script_from_row(&row))
            },
            None => None,
        }
    }

    /// Gives the saved script with the identifier of `script` the name,
    /// source and status of `script`. Says whether there was one to update.
    pub fn update_script(&mut self, script: &Script) -> (updated: bool)
        ensures
            updated == can_update(old(self)@.scripts, script@),
            final(self)@ == (Store {
                scripts: with_updated_script_row(old(self)@.scripts, script@),
                ..old(self)@
            }),
    {
        let id = match &script.id {
            Some(id) => id,
            None => {
                return false;
            },
        };
        let status = match script.status {
            Some(s) => s,
            None => {
                return false;
            },
        };
        match find_script_row_index(&self.scripts, id.as_str()) {
            Some(i) => {
                let mut row = self.scripts[i].clone();
                row.name = script.name.clone();
                row.source = script.source.clone();
                row.status = status_number(status);
                proof {
                    lemma_views_update(self.scripts@, i as int, row);
                }
                self.scripts.set(i, row);
                true
            },
            None => false,
        }
    }
}

} // verus!
