//! Reading scripts: all of them or those of some types, and one by its
//! identifier.

use vstd::prelude::*;
use crate::db::schema::{DbExecutor, ScriptDb, ScriptDbView, Store};
use crate::db::scripts::{find_script_row_index, script_from_row, script_of_row, script_row_index};
use crate::engine::streams::{script_type_as_int, Script, ScriptType, ScriptView};
use crate::seqs::{keep_where, order_of, sort_rows, sorted_by};
use crate::text::{opt_view, views};

verus! {

/// Whether one of the types is stored as the number.
pub open spec fn names_type(types: Seq<ScriptType>, number: i32) -> bool {
    exists|k: int| 0 <= k < types.len() && script_type_as_int(#[trigger] types[k]) == number
}

/// Whether a script is of one of the types that are asked for; with no
/// types given every script is.
pub open spec fn of_types(types: Option<Seq<ScriptType>>) -> spec_fn(ScriptDbView) -> bool {
    |row: ScriptDbView| types is Some ==> names_type(types->0, row.script_type)
}

/// The scripts of the types, by name.
pub open spec fn scripts_found(s: Store, types: Option<Seq<ScriptType>>) -> Seq<ScriptView> {
    let rows = sorted_by(s.scripts.filter(of_types(types)), order_of::<ScriptDb>());
    Seq::new(rows.len(), |k: int| script_of_row(rows[k]))
}

fn type_named(types: &Vec<ScriptType>, number: i32) -> (r: bool)
    ensures
        r == names_type(types@, number),
{
    let mut i: usize = 0;
    while i < types.len()
        invariant
            i <= types.len(),
            forall|k: int| 0 <= k < i ==> script_type_as_int(#[trigger] types[k]) != number,
        decreases types.len() - i,
    {
        if types[i].as_i32() == number {
            return true;
        }
        i += 1;
    }
    false
}

/// The types that are asked for, as a sequence.
pub open spec fn opt_types(types: Option<Vec<ScriptType>>) -> Option<Seq<ScriptType>> {
    match types {
        Some(t) => Some(t@),
        None => None,
    }
}

impl DbExecutor {
    /// The saved scripts of the given types, or all of them, by name.
    pub fn get_all_scripts(&self, types: &Option<Vec<ScriptType>>) -> (scripts: Vec<Script>)
        ensures
            views(scripts@) == scripts_found(self@, opt_types(*types)),
    {
        let mut keep: Vec<bool> = Vec::new();
        let mut i: usize = 0;
        while i < self.scripts.len()
            invariant
                i <= self.scripts.len(),
                keep.len() == i,
                forall|k: int|
                    0 <= k < i ==> keep[k] == of_types(opt_types(*types))(
                        #[trigger] self.scripts[k]@,
                    ),
            decreases self.scripts.len() - i,
        {
            let wanted = match types {
                Some(t) => type_named(t, self.scripts[i].script_type),
                None => true,
            };
            keep.push(wanted);
            i += 1;
        }
        let kept = keep_where(&self.scripts, &keep, Ghost(of_types(opt_types(*types))));
        let rows = sort_rows(&kept);
        let mut scripts: Vec<Script> = Vec::new();
        let mut j: usize = 0;
        while j < rows.len()
            invariant
                j <= rows.len(),
                scripts.len() == j,
                forall|k: int| 0 <= k < j ==> scripts[k]@ == script_of_row(rows[k]@),
            decreases rows.len() - j,
        {
            scripts.push(script_from_row(&rows[j]));
            j += 1;
        }
        assert(views(scripts@) =~= scripts_found(self@, opt_types(*types)));
        scripts
    }

    /// The saved script with the identifier.
    pub fn get_script(&self, id: &str) -> (script: Option<Script>)
        ensures
            opt_view(script) == match script_row_index(self@.scripts, id@) {
                Some(i) => Some(script_of_row(self@.scripts[i])),
                None => None,
            },
    {
        match find_script_row_index(&self.scripts, id) {
            Some(i) => Some(script_from_row(&self.scripts[i])),
            None => None,
        }
    }
}

} // verus!
