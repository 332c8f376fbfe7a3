use session_pool::policy::UpdatePolicy;
use session_pool::statements::{statement_at, statement_count, statements_for, Statement};

#[test]
fn lookup_text_is_exact() {
    assert_eq!(
        Statement::WorldById.sql(),
        "SELECT id, randomnumber FROM world WHERE id = $1 LIMIT 1"
    );
}

#[test]
fn locking_lookup_appends_for_update() {
    assert_eq!(
        Statement::WorldByIdForUpdate.sql(),
        "SELECT id, randomnumber FROM world WHERE id = $1 LIMIT 1 FOR UPDATE"
    );
    assert_eq!(
        Statement::WorldByIdForUpdate.sql(),
        format!("{} FOR UPDATE", Statement::WorldById.sql())
    );
}

#[test]
fn fortunes_text_is_exact() {
    assert_eq!(Statement::AllFortunes.sql(), "SELECT id, message FROM fortune");
}

#[test]
fn update_text_is_exact() {
    assert_eq!(
        Statement::UpdateWorlds.sql(),
        "UPDATE world SET randomnumber = new.randomnumber FROM ( SELECT * FROM UNNEST($1::int[], $2::int[]) AS v(id, randomnumber) ) AS new WHERE world.id = new.id "
    );
}

#[test]
fn literal_policy_compiles_three_statements() {
    assert_eq!(
        statements_for(UpdatePolicy::Literal),
        vec![Statement::WorldById, Statement::AllFortunes, Statement::UpdateWorlds]
    );
    assert_eq!(statement_count(UpdatePolicy::Literal), 3);
}

#[test]
fn transactional_policy_compiles_four_statements() {
    assert_eq!(
        statements_for(UpdatePolicy::Transactional),
        vec![
            Statement::WorldById,
            Statement::WorldByIdForUpdate,
            Statement::AllFortunes,
            Statement::UpdateWorlds
        ]
    );
    assert_eq!(statement_count(UpdatePolicy::Transactional), 4);
}

#[test]
fn statement_at_follows_the_plan() {
    for policy in [UpdatePolicy::Literal, UpdatePolicy::Transactional] {
        let plan = statements_for(policy);
        for (index, statement) in plan.iter().enumerate() {
            assert_eq!(statement_at(policy, index), Some(*statement));
        }
        assert_eq!(statement_at(policy, plan.len()), None);
        assert_eq!(statement_at(policy, usize::MAX), None);
    }
}
