//! The migrations of the store's schema, and the runner that decides which
//! of them are due.

use vstd::prelude::*;
use crate::error::{Error, Result};
use crate::text::{same_text, string_texts};

verus! {

/// A step in the history of the schema.
#[derive(Debug, Clone, Copy)]
pub struct Migration {
    /// The name under which the step is recorded once it is applied.
    pub name: &'static str,
    /// The statements that make the step.
    pub script: &'static str,
}

/// Creates the tables of the first generation.
pub const MIGRATION_202103210001: &'static str =
    "CREATE TABLE IF NOT EXISTS items (
        id          INTEGER PRIMARY KEY,
        location    TEXT NOT NULL UNIQUE,
        signature   TEXT NOT NULL UNIQUE
    );
    CREATE TABLE IF NOT EXISTS duplicate_items (
        id          INTEGER PRIMARY KEY,
        location    TEXT NOT NULL UNIQUE,
        signature   TEXT NOT NULL
    );
    CREATE TABLE IF NOT EXISTS tags (
        id          INTEGER PRIMARY KEY,
        name        TEXT NOT NULL UNIQUE
    );
    CREATE TABLE IF NOT EXISTS item_tags (
        id          INTEGER PRIMARY KEY,
        item_id     INTEGER NOT NULL,
        tag_id      INTEGER NOT NULL,
        FOREIGN KEY(item_id) REFERENCES items(id),
        FOREIGN KEY(tag_id) REFERENCES tags(id),
        UNIQUE(item_id, tag_id)
    );";

/// Makes the associations go when their item or their tag goes.
pub const MIGRATION_202103210002: &'static str =
    "PRAGMA foreign_keys = OFF;
    BEGIN TRANSACTION;
    CREATE TABLE _new_item_tags (
        id          INTEGER PRIMARY KEY,
        item_id     INTEGER NOT NULL,
        tag_id      INTEGER NOT NULL,
        FOREIGN KEY(item_id) REFERENCES items(id) ON DELETE CASCADE,
        FOREIGN KEY(tag_id) REFERENCES tags(id) ON DELETE CASCADE,
        UNIQUE(item_id, tag_id)
    );
    INSERT INTO _new_item_tags SELECT * FROM item_tags;
    DROP TABLE item_tags;
    ALTER TABLE _new_item_tags RENAME TO item_tags;
    PRAGMA foreign_key_check;
    COMMIT;
    PRAGMA foreign_keys = ON;";

/// Turns the tables of items into tables of files, with their rows.
pub const MIGRATION_202103220001: &'static str =
    "PRAGMA foreign_keys = OFF;
    BEGIN TRANSACTION;

    CREATE TABLE files (
        id          INTEGER PRIMARY KEY,
        location    TEXT NOT NULL UNIQUE,
        signature   TEXT NOT NULL UNIQUE
    );
    INSERT INTO files SELECT * FROM items;

    CREATE TABLE duplicate_files (
        id          INTEGER PRIMARY KEY,
        location    TEXT NOT NULL UNIQUE,
        signature   TEXT NOT NULL
    );
    INSERT INTO duplicate_files SELECT * FROM duplicate_items;

    CREATE TABLE file_tags (
        id          INTEGER PRIMARY KEY,
        file_id     INTEGER NOT NULL,
        tag_id      INTEGER NOT NULL,
        FOREIGN KEY(file_id) REFERENCES files(id) ON DELETE CASCADE,
        FOREIGN KEY(tag_id) REFERENCES tags(id) ON DELETE CASCADE,
        UNIQUE(file_id, tag_id)
    );
    INSERT INTO file_tags SELECT * FROM item_tags;

    DROP TABLE item_tags;
    DROP TABLE items;
    DROP TABLE duplicate_items;

    PRAGMA foreign_key_check;
    COMMIT;
    PRAGMA foreign_keys = ON;";

/// Creates the table in which the applied migrations are recorded.
pub const INITIAL_MIGRATION: &'static str =
    "CREATE TABLE IF NOT EXISTS migrations (
        name        TEXT NOT NULL PRIMARY KEY
    );";

/// The names of the migrations, in the order in which they apply.
pub open spec fn migration_names() -> Seq<Seq<char>> {
    seq!["202103210001"@, "202103210002"@, "202103220001"@]
}

/// The scripts of the migrations, in the order in which they apply.
pub open spec fn migration_scripts() -> Seq<Seq<char>> {
    seq![MIGRATION_202103210001@, MIGRATION_202103210002@, MIGRATION_202103220001@]
}

/// The script of the migration named `name`.
pub open spec fn script_of(name: Seq<char>) -> Seq<char> {
    if name == "202103210001"@ {
        MIGRATION_202103210001@
    } else if name == "202103210002"@ {
        MIGRATION_202103210002@
    } else {
        MIGRATION_202103220001@
    }
}

/// The scripts of a list of migrations.
pub open spec fn scripts_of(list: Seq<Migration>) -> Seq<Seq<char>> {
    list.map_values(|m: Migration| m.script@)
}

/// Whether each migration of the list has the script that goes with its
/// name.
pub open spec fn carry_their_scripts(list: Seq<Migration>) -> bool {
    forall|i: int| 0 <= i < list.len() ==> (#[trigger] list[i]).script@ == script_of(list[i].name@)
}

/// The names of a list of migrations.
pub open spec fn names_of(list: Seq<Migration>) -> Seq<Seq<char>> {
    list.map_values(|m: Migration| m.name@)
}

/// The names that are not recorded.
pub open spec fn not_in(applied: Seq<Seq<char>>) -> spec_fn(Seq<char>) -> bool {
    |name: Seq<char>| !applied.contains(name)
}

/// The migrations that are due where `applied` are recorded: those of the
/// fixed sequence that are not among them, in their order.
pub open spec fn pending(applied: Seq<Seq<char>>) -> Seq<Seq<char>> {
    migration_names().filter(not_in(applied))
}

/// The tables that the recorded migrations have left behind.
pub open spec fn expected_tables(applied: Seq<Seq<char>>) -> Seq<Seq<char>> {
    if applied.contains("202103220001"@) {
        seq!["files"@, "duplicate_files"@, "tags"@, "file_tags"@]
    } else if applied.contains("202103210001"@) {
        seq!["items"@, "duplicate_items"@, "tags"@, "item_tags"@]
    } else {
        Seq::empty()
    }
}

/// Whether the schema has drifted: a table that the recorded migrations
/// have left behind is not among `tables`.
pub open spec fn has_drifted(applied: Seq<Seq<char>>, tables: Seq<Seq<char>>) -> bool {
    exists|i: int|
        0 <= i < expected_tables(applied).len() && !tables.contains(
            #[trigger] expected_tables(applied)[i],
        )
}

/// The migrations, in the order in which they apply.
pub fn migrations() -> (list: Vec<Migration>)
    ensures
        names_of(list@) == migration_names(),
        scripts_of(list@) == migration_scripts(),
        carry_their_scripts(list@),
{
    let list = vec![
        Migration { name: "202103210001", script: MIGRATION_202103210001 },
        Migration { name: "202103210002", script: MIGRATION_202103210002 },
        Migration { name: "202103220001", script: MIGRATION_202103220001 },
    ];
    proof {
        assert(names_of(list@) =~= migration_names());
        assert(scripts_of(list@) =~= migration_scripts());
        reveal_strlit("202103210001");
        reveal_strlit("202103210002");
        reveal_strlit("202103220001");
        assert("202103210001"@[11] != "202103210002"@[11]);
        assert("202103210001"@[7] != "202103220001"@[7]);
        assert("202103210002"@[7] != "202103220001"@[7]);
    }
    list
}

/// Whether `name` is one of `names`.
fn is_among(names: &Vec<String>, name: &str) -> (r: bool)
    ensures
        r == string_texts(names@).contains(name@),
{
    let ghost texts = string_texts(names@);
    let mut i: usize = 0;
    while i < names.len()
        invariant
            i <= names.len(),
            texts == string_texts(names@),
            forall|k: int| 0 <= k < i ==> texts[k] != name@,
        decreases names.len() - i,
    {
        if same_text(names[i].as_str(), name) {
            assert(texts[i as int] == name@);
            return true;
        }
        i = i + 1;
    }
    false
}

/// The migrations that are due where `applied` are recorded, in the order
/// in which they apply.
pub fn pending_migrations(applied: &Vec<String>) -> (due: Vec<Migration>)
    ensures
        names_of(due@) == pending(string_texts(applied@)),
        carry_their_scripts(due@),
{
    let all = migrations();
    let ghost names = names_of(all@);
    let ghost pred = not_in(string_texts(applied@));
    let mut due: Vec<Migration> = Vec::new();
    let mut i: usize = 0;
    assert(names_of(due@) =~= names.take(0).filter(pred)) by {
        reveal(Seq::filter);
    }
    while i < all.len()
        invariant
            i <= all.len(),
            names == names_of(all@),
            pred == not_in(string_texts(applied@)),
            carry_their_scripts(all@),
            carry_their_scripts(due@),
            names_of(due@) == names.take(i as int).filter(pred),
        decreases all.len() - i,
    {
        proof {
            assert(names.take(i + 1) == names.take(i as int).push(names[i as int]));
            names.take(i as int).lemma_filter_push(names[i as int], pred);
        }
        if !is_among(applied, all[i].name) {
            let ghost before = names_of(due@);
            due.push(all[i]);
            assert(names_of(due@) =~= before.push(names[i as int]));
        }
        i = i + 1;
    }
    assert(names.take(i as int) == names);
    due
}

/// Whether the tables that the recorded migrations have left behind are
/// all among `tables`.
pub fn check_schema(applied: &Vec<String>, tables: &Vec<String>) -> (r: Result<()>)
    ensures
        match r {
            Ok(_) => !has_drifted(string_texts(applied@), string_texts(tables@)),
            Err(e) => e is SchemaDrift && has_drifted(
                string_texts(applied@),
                string_texts(tables@),
            ),
        },
{
    let expected: Vec<&str> = if is_among(applied, "202103220001") {
        vec!["files", "duplicate_files", "tags", "file_tags"]
    } else if is_among(applied, "202103210001") {
        vec!["items", "duplicate_items", "tags", "item_tags"]
    } else {
        Vec::new()
    };
    let ghost wanted = expected_tables(string_texts(applied@));
    assert(crate::text::str_texts(expected@) =~= wanted);
    let mut i: usize = 0;
    while i < expected.len()
        invariant
            i <= expected.len(),
            wanted == expected_tables(string_texts(applied@)),
            crate::text::str_texts(expected@) == wanted,
            forall|k: int| 0 <= k < i ==> string_texts(tables@).contains(#[trigger] wanted[k]),
        decreases expected.len() - i,
    {
        assert(wanted[i as int] == expected[i as int]@);
        if !is_among(tables, expected[i]) {
            return Err(Error::SchemaDrift);
        }
        i = i + 1;
    }
    Ok(())
}

/// Decides what a run of the migrations has to do in a store in which
/// `applied` are recorded and `tables` exist. Where the schema has drifted
/// nothing is due. Else the migrations that are due are handed out, each
/// with its script, in the order in which they apply. Each of them is to
/// be recorded, with [`record_applied`], once its script went through.
pub fn run_migrations(applied: &Vec<String>, tables: &Vec<String>) -> (r: Result<Vec<Migration>>)
    ensures
        match r {
            Ok(due) => {
                &&& !has_drifted(string_texts(applied@), string_texts(tables@))
                &&& names_of(due@) == pending(string_texts(applied@))
                &&& carry_their_scripts(due@)
            },
            Err(e) => e is SchemaDrift && has_drifted(
                string_texts(applied@),
                string_texts(tables@),
            ),
        },
{
    match check_schema(applied, tables) {
        Ok(_) => Ok(pending_migrations(applied)),
        Err(e) => Err(e),
    }
}

/// Records that the migration named `name` was applied: after those that
/// were.
pub fn record_applied(applied: &mut Vec<String>, name: &str)
    ensures
        string_texts(final(applied)@) == string_texts(old(applied)@).push(name@),
{
    applied.push(String::from_str(name));
    assert(string_texts(applied@) =~= string_texts(old(applied)@).push(name@));
}

/// Once the migrations that were due are recorded, nothing is due: a
/// second run hands out no migration.
pub proof fn lemma_second_run_is_idle(applied: Seq<Seq<char>>)
    ensures
        pending(applied + pending(applied)) == Seq::<Seq<char>>::empty(),
{
    let after = applied + pending(applied);
    let names = migration_names();
    assert forall|i: int| 0 <= i < names.len() implies !not_in(after)(#[trigger] names[i]) by {
        if !applied.contains(names[i]) {
            names.lemma_filter_contains(not_in(applied), i);
            let k = choose|k: int| 0 <= k < pending(applied).len() && pending(applied)[k] == names[i];
            assert(after[applied.len() + k] == names[i]);
        } else {
            let k = choose|k: int| 0 <= k < applied.len() && applied[k] == names[i];
            assert(after[k] == names[i]);
        }
    }
    names.lemma_all_neg_filter_empty(not_in(after));
}

} // verus!
