//! The statements every session compiles once, and their texts.

use vstd::prelude::*;
use crate::policy::UpdatePolicy;

verus! {

/// One of the fixed, parameterized statements of a session.
#[derive(Clone, Copy, Debug, PartialEq, Eq, Structural)]
pub enum Statement {
    /// Fetch one `world` row by primary key.
    WorldById,
    /// The same lookup under a row lock, for use inside a transaction.
    WorldByIdForUpdate,
    /// Stream every `fortune` row.
    AllFortunes,
    /// Update all rows named by two arrays of equal length, ids and values.
    UpdateWorlds,
}

impl Statement {
    /// The text sent to the store for this statement.
    pub open spec fn text(self) -> Seq<char> {
        match self {
            Statement::WorldById => "SELECT id, randomnumber FROM world WHERE id = $1 LIMIT 1"@,
            Statement::WorldByIdForUpdate => "SELECT id, randomnumber FROM world WHERE id = $1 LIMIT 1 FOR UPDATE"@,
            Statement::AllFortunes => "SELECT id, message FROM fortune"@,
            Statement::UpdateWorlds => "UPDATE world SET randomnumber = new.randomnumber FROM ( SELECT * FROM UNNEST($1::int[], $2::int[]) AS v(id, randomnumber) ) AS new WHERE world.id = new.id "@,
        }
    }

    /// The text to compile for this statement.
    pub fn sql(self) -> (sql: &'static str)
        ensures
            sql@ == self.text(),
    {
        match self {
            Statement::WorldById => "SELECT id, randomnumber FROM world WHERE id = $1 LIMIT 1",
            Statement::WorldByIdForUpdate => "SELECT id, randomnumber FROM world WHERE id = $1 LIMIT 1 FOR UPDATE",
            Statement::AllFortunes => "SELECT id, message FROM fortune",
            Statement::UpdateWorlds => "UPDATE world SET randomnumber = new.randomnumber FROM ( SELECT * FROM UNNEST($1::int[], $2::int[]) AS v(id, randomnumber) ) AS new WHERE world.id = new.id ",
        }
    }
}

/// The statements a session compiles under `policy`, in the order in which it
/// compiles them. The row-locking lookup belongs to the transactional update
/// only.
pub open spec fn statement_plan(policy: UpdatePolicy) -> Seq<Statement> {
    match policy {
        UpdatePolicy::Literal => seq![
            Statement::WorldById,
            Statement::AllFortunes,
            Statement::UpdateWorlds,
        ],
        UpdatePolicy::Transactional => seq![
            Statement::WorldById,
            Statement::WorldByIdForUpdate,
            Statement::AllFortunes,
            Statement::UpdateWorlds,
        ],
    }
}

/// The statements a session compiles under `policy`.
pub fn statements_for(policy: UpdatePolicy) -> (plan: Vec<Statement>)
    ensures
        plan@ == statement_plan(policy),
{
    let mut plan: Vec<Statement> = Vec::new();
    plan.push(Statement::WorldById);
    match policy {
        UpdatePolicy::Literal => {},
        UpdatePolicy::Transactional => {
            plan.push(Statement::WorldByIdForUpdate);
        },
    }
    plan.push(Statement::AllFortunes);
    plan.push(Statement::UpdateWorlds);
    proof {
        assert(plan@ =~= statement_plan(policy));
    }
    plan
}

/// How many statements a session compiles under `policy`.
pub fn statement_count(policy: UpdatePolicy) -> (count: usize)
    ensures
        count == statement_plan(policy).len(),
        count >= 1,
{
    match policy {
        UpdatePolicy::Literal => 3,
        UpdatePolicy::Transactional => 4,
    }
}

/// The statement a session compiles at position `index` under `policy`.
pub fn statement_at(policy: UpdatePolicy, index: usize) -> (statement: Option<Statement>)
    ensures
        index < statement_plan(policy).len() ==> statement == Some(
            statement_plan(policy)[index as int],
        ),
        index >= statement_plan(policy).len() ==> statement.is_none(),
{
    match policy {
        UpdatePolicy::Literal => {
            if index == 0 {
                Some(Statement::WorldById)
            } else if index == 1 {
                Some(Statement::AllFortunes)
            } else if index == 2 {
                Some(Statement::UpdateWorlds)
            } else {
                None
            }
        },
        UpdatePolicy::Transactional => {
            if index == 0 {
                Some(Statement::WorldById)
            } else if index == 1 {
                Some(Statement::WorldByIdForUpdate)
            } else if index == 2 {
                Some(Statement::AllFortunes)
            } else if index == 3 {
                Some(Statement::UpdateWorlds)
            } else {
                None
            }
        },
    }
}

/// The row-locking lookup is the plain lookup with ` FOR UPDATE` appended.
pub proof fn lemma_locking_lookup_extends_lookup()
    ensures
        Statement::WorldByIdForUpdate.text() == Statement::WorldById.text() + " FOR UPDATE"@,
{
    reveal_strlit("SELECT id, randomnumber FROM world WHERE id = $1 LIMIT 1");
    reveal_strlit("SELECT id, randomnumber FROM world WHERE id = $1 LIMIT 1 FOR UPDATE");
    reveal_strlit(" FOR UPDATE");
}

} // verus!
