//! The SQL text of a sync. Every name that goes in is an identifier.

use vstd::prelude::*;
use vstd::string::StringExecFns;
use crate::text::{dec, joined_text, push_dec, quoted_in, texts};

verus! {

/// Names in double quotes, separated by commas.
pub open spec fn quoted_list(cols: Seq<Seq<char>>) -> Seq<char>
    decreases cols.len(),
{
    if cols.len() == 0 {
        Seq::empty()
    } else if cols.len() == 1 {
        "\""@ + cols[0] + "\""@
    } else {
        quoted_list(cols.drop_last()) + ", "@ + ("\""@ + cols.last() + "\""@)
    }
}

/// Names in double quotes, separated by commas.
pub fn quoted(cols: &Vec<String>) -> (r: String)
    ensures
        r@ == quoted_list(texts(cols@)),
{
    let mut s = String::new();
    let mut i: usize = 0;
    let ghost ns = texts(cols@);
    proof {
        assert(ns.take(0) =~= Seq::<Seq<char>>::empty());
        assert(s@ =~= quoted_list(ns.take(0)));
    }
    while i < cols.len()
        invariant
            i <= cols@.len(),
            ns == texts(cols@),
            s@ == quoted_list(ns.take(i as int)),
        decreases cols@.len() - i,
    {
        let ghost before = s@;
        if i > 0 {
            s.append(", ");
        }
        let q = quoted_in("\"", cols[i].as_str(), "\"");
        s.append(q.as_str());
        proof {
            assert(ns.take(i + 1).drop_last() =~= ns.take(i as int));
            assert(ns.take(i + 1).last() == cols@[i as int]@);
            assert(s@ =~= quoted_list(ns.take(i + 1)));
        }
        i += 1;
    }
    proof {
        assert(ns.take(i as int) =~= ns);
    }
    s
}

/// `, $2, $3, …` for `n` values.
pub open spec fn placeholders(n: nat) -> Seq<char>
    decreases n,
{
    if n == 0 { Seq::empty() } else { placeholders((n - 1) as nat) + ", $"@ + dec(n + 1) }
}

fn push_placeholders(s: &mut String, n: usize)
    ensures
        final(s)@ == old(s)@ + placeholders(n as nat),
{
    let mut i: usize = 0;
    proof {
        assert(s@ =~= old(s)@ + placeholders(0));
    }
    while i < n
        invariant
            i <= n,
            s@ == old(s)@ + placeholders(i as nat),
        decreases n - i,
    {
        s.append(", $");
        push_dec(s, i as u128 + 2);
        proof {
            assert(s@ =~= old(s)@ + placeholders((i + 1) as nat));
        }
        i += 1;
    }
}

/// `"a" = $2, "b" = $3, …`
pub open spec fn assignments(cols: Seq<Seq<char>>) -> Seq<char>
    decreases cols.len(),
{
    if cols.len() == 0 {
        Seq::empty()
    } else {
        let one = "\""@ + cols.last() + "\" = $"@ + dec(cols.len() + 1);
        if cols.len() == 1 { one } else { assignments(cols.drop_last()) + ", "@ + one }
    }
}

fn push_assignments(s: &mut String, cols: &Vec<String>)
    ensures
        final(s)@ == old(s)@ + assignments(texts(cols@)),
{
    let mut i: usize = 0;
    let ghost ns = texts(cols@);
    proof {
        assert(ns.take(0) =~= Seq::<Seq<char>>::empty());
        assert(s@ =~= old(s)@ + assignments(ns.take(0)));
    }
    while i < cols.len()
        invariant
            i <= cols@.len(),
            ns == texts(cols@),
            s@ == old(s)@ + assignments(ns.take(i as int)),
        decreases cols@.len() - i,
    {
        if i > 0 {
            s.append(", ");
        }
        let mut one = quoted_in("\"", cols[i].as_str(), "\" = $");
        push_dec(&mut one, i as u128 + 2);
        s.append(one.as_str());
        proof {
            assert(ns.take(i + 1).drop_last() =~= ns.take(i as int));
            assert(ns.take(i + 1).last() == cols@[i as int]@);
            assert(s@ =~= old(s)@ + assignments(ns.take(i + 1)));
        }
        i += 1;
    }
    proof {
        assert(ns.take(i as int) =~= ns);
    }
}

/// The statements on one side of a mapped table.
#[derive(Debug)]
pub struct SideSql {
    /// The row under a key.
    pub get: String,
    /// Whether there is a row under a key.
    pub exists: String,
    pub insert: String,
    pub update: String,
    pub delete: String,
    /// The first chunk of keys and values.
    pub first: String,
    /// The chunk behind a key.
    pub next: String,
}

/// The statements on a table with the key column `key` and the value columns
/// `cols`, read in chunks of `chunk` rows.
pub open spec fn is_side_sql(q: SideSql, table: Seq<char>, key: Seq<char>, cols: Seq<Seq<char>>, chunk: nat) -> bool {
    let list = quoted_list(cols);
    &&& q.get@ == "SELECT "@ + list + " FROM \""@ + table + "\" WHERE \""@ + key + "\" = $1"@
    &&& q.exists@ == "SELECT \""@ + key + "\" FROM \""@ + table + "\" WHERE \""@ + key + "\" = $1"@
    &&& q.insert@ == "INSERT INTO \""@ + table + "\" (\""@ + key + "\", "@ + list + ") VALUES ($1"@ + placeholders(cols.len()) + ")"@
    &&& q.update@ == "UPDATE \""@ + table + "\" SET "@ + assignments(cols) + " WHERE \""@ + key + "\" = $1"@
    &&& q.delete@ == "DELETE FROM \""@ + table + "\" WHERE \""@ + key + "\" = $1"@
    &&& q.first@ == "SELECT \""@ + key + "\", "@ + list + " FROM \""@ + table + "\" ORDER BY \""@ + key + "\" LIMIT "@ + dec(chunk)
    &&& q.next@ == "SELECT \""@ + key + "\", "@ + list + " FROM \""@ + table + "\" WHERE \""@ + key + "\" > $1 ORDER BY \""@ + key
        + "\" LIMIT "@ + dec(chunk)
}

/// The statements on one side of a mapped table.
pub fn side_sql(table: &str, key: &str, cols: &Vec<String>, chunk: usize) -> (q: SideSql)
    ensures
        is_side_sql(q, table@, key@, texts(cols@), chunk as nat),
{
    let list = quoted(cols);
    let mut get = String::from_str("SELECT ");
    get.append(list.as_str());
    get.append(" FROM \"");
    get.append(table);
    get.append("\" WHERE \"");
    get.append(key);
    get.append("\" = $1");
    let mut exists = quoted_in("SELECT \"", key, "\" FROM \"");
    exists.append(table);
    exists.append("\" WHERE \"");
    exists.append(key);
    exists.append("\" = $1");
    let mut insert = quoted_in("INSERT INTO \"", table, "\" (\"");
    insert.append(key);
    insert.append("\", ");
    insert.append(list.as_str());
    insert.append(") VALUES ($1");
    push_placeholders(&mut insert, cols.len());
    insert.append(")");
    let mut update = quoted_in("UPDATE \"", table, "\" SET ");
    push_assignments(&mut update, cols);
    update.append(" WHERE \"");
    update.append(key);
    update.append("\" = $1");
    let mut delete = quoted_in("DELETE FROM \"", table, "\" WHERE \"");
    delete.append(key);
    delete.append("\" = $1");
    let mut first = quoted_in("SELECT \"", key, "\", ");
    first.append(list.as_str());
    first.append(" FROM \"");
    first.append(table);
    let mut next = first.clone();
    first.append("\" ORDER BY \"");
    first.append(key);
    first.append("\" LIMIT ");
    push_dec(&mut first, chunk as u128);
    next.append("\" WHERE \"");
    next.append(key);
    next.append("\" > $1 ORDER BY \"");
    next.append(key);
    next.append("\" LIMIT ");
    push_dec(&mut next, chunk as u128);
    SideSql { get, exists, insert, update, delete, first, next }
}

/// A column name between double quotes.
pub open spec fn in_quotes(c: Seq<char>) -> Seq<char> {
    "\""@ + c + "\""@
}

proof fn lemma_joined_last(parts: Seq<Seq<char>>, sep: Seq<char>)
    requires
        parts.len() > 1,
    ensures
        joined_text(parts, sep) == joined_text(parts.drop_last(), sep) + sep + parts.last(),
{
}

/// A list of columns has every column, quoted, in order.
pub proof fn law_columns_are_listed(cols: Seq<Seq<char>>)
    ensures
        quoted_list(cols) == joined_text(Seq::new(cols.len(), |i: int| in_quotes(cols[i])), ", "@),
    decreases cols.len(),
{
    let all = Seq::new(cols.len(), |i: int| in_quotes(cols[i]));
    if cols.len() == 1 {
        assert(all[0] == in_quotes(cols[0]));
    } else if cols.len() > 1 {
        let d = cols.drop_last();
        law_columns_are_listed(d);
        assert(all.drop_last() =~= Seq::new(d.len(), |i: int| in_quotes(d[i])));
        lemma_joined_last(all, ", "@);
        assert(all.last() == in_quotes(cols.last()));
    }
}

/// A row is inserted and updated with the same parameters: the key is the
/// first, and the value of column number `i` the one numbered `i + 2`.
pub proof fn law_values_keep_their_slots(cols: Seq<Seq<char>>)
    ensures
        "$1"@ + placeholders(cols.len()) == joined_text(Seq::new(cols.len() + 1, |i: int| "$"@ + dec((i + 1) as nat)), ", "@),
        assignments(cols) == joined_text(Seq::new(cols.len(), |i: int| in_quotes(cols[i]) + " = $"@ + dec((i + 2) as nat)), ", "@),
    decreases cols.len(),
{
    let n = cols.len();
    reveal_strlit("$1");
    reveal_strlit("$");
    reveal_strlit(", $");
    reveal_strlit(", ");
    reveal_strlit("\" = $");
    reveal_strlit("\"");
    reveal_strlit(" = $");
    let slots = Seq::new(n + 1, |i: int| "$"@ + dec((i + 1) as nat));
    let sets = Seq::new(n, |i: int| in_quotes(cols[i]) + " = $"@ + dec((i + 2) as nat));
    if n == 0 {
        assert(dec(1) =~= seq!['1']);
        assert(slots[0] =~= "$1"@);
        assert("$1"@ + placeholders(0) =~= "$1"@);
        assert(joined_text(sets, ", "@) =~= Seq::empty());
    } else {
        let d = cols.drop_last();
        law_values_keep_their_slots(d);
        assert(slots.drop_last() =~= Seq::new(n, |i: int| "$"@ + dec((i + 1) as nat)));
        lemma_joined_last(slots, ", "@);
        assert(", $"@ =~= ", "@ + "$"@);
        assert(slots.last() == "$"@ + dec(n + 1));
        assert("$1"@ + placeholders(n) =~= joined_text(slots, ", "@));
        let one = "\""@ + cols.last() + "\" = $"@ + dec(n + 1);
        assert("\" = $"@ =~= "\""@ + " = $"@);
        assert(one =~= in_quotes(cols.last()) + " = $"@ + dec(n + 1));
        assert(sets.last() == in_quotes(cols[n - 1]) + " = $"@ + dec(n + 1));
        if n > 1 {
            assert(sets.drop_last() =~= Seq::new(d.len(), |i: int| in_quotes(d[i]) + " = $"@ + dec((i + 2) as nat)));
            lemma_joined_last(sets, ", "@);
        } else {
            assert(sets[0] == one);
        }
    }
}

/// The text `t` ends in `tail`.
pub open spec fn ends_in(t: Seq<char>, tail: Seq<char>) -> bool {
    t.len() >= tail.len() && t.skip(t.len() - tail.len()) == tail
}

proof fn lemma_ends(a: Seq<char>, b: Seq<char>)
    ensures
        ends_in(a + b, b),
{
    assert((a + b).skip(a.len() as int) =~= b);
}

/// Whatever reads, changes or deletes one row names that row: its statement
/// ends in the condition that the key is the first parameter.
pub proof fn law_statements_pin_their_row(q: SideSql, table: Seq<char>, key: Seq<char>, cols: Seq<Seq<char>>, chunk: nat)
    requires
        is_side_sql(q, table, key, cols, chunk),
    ensures
        ends_in(q.get@, " WHERE \""@ + key + "\" = $1"@),
        ends_in(q.exists@, " WHERE \""@ + key + "\" = $1"@),
        ends_in(q.update@, " WHERE \""@ + key + "\" = $1"@),
        ends_in(q.delete@, " WHERE \""@ + key + "\" = $1"@),
{
    reveal_strlit("\" WHERE \"");
    reveal_strlit("\"");
    reveal_strlit(" WHERE \"");
    let tail = " WHERE \""@ + key + "\" = $1"@;
    assert("\" WHERE \""@ =~= "\""@ + " WHERE \""@);
    let list = quoted_list(cols);
    let get = "SELECT "@ + list + " FROM \""@ + table + "\""@;
    let exists = "SELECT \""@ + key + "\" FROM \""@ + table + "\""@;
    let update = "UPDATE \""@ + table + "\" SET "@ + assignments(cols);
    let delete = "DELETE FROM \""@ + table + "\""@;
    assert(q.get@ =~= get + tail);
    assert(q.exists@ =~= exists + tail);
    assert(q.update@ =~= update + tail);
    assert(q.delete@ =~= delete + tail);
    lemma_ends(get, tail);
    lemma_ends(exists, tail);
    lemma_ends(update, tail);
    lemma_ends(delete, tail);
}

/// A chunk behind a key is read like the first, with the key's columns in the
/// same order, from the same table, in the order of the key.
pub proof fn law_chunks_are_read_alike(q: SideSql, table: Seq<char>, key: Seq<char>, cols: Seq<Seq<char>>, chunk: nat)
    requires
        is_side_sql(q, table, key, cols, chunk),
    ensures
        ({
            let what = "SELECT "@ + in_quotes(key) + ", "@ + quoted_list(cols) + " FROM "@ + in_quotes(table);
            let order = " ORDER BY "@ + in_quotes(key) + " LIMIT "@ + dec(chunk);
            &&& q.first@ == what + order
            &&& q.next@ == what + (" WHERE "@ + in_quotes(key) + " > $1"@) + order
        }),
{
    reveal_strlit("SELECT \"");
    reveal_strlit("SELECT ");
    reveal_strlit("\"");
    reveal_strlit("\", ");
    reveal_strlit(", ");
    reveal_strlit(" FROM \"");
    reveal_strlit(" FROM ");
    reveal_strlit("\" ORDER BY \"");
    reveal_strlit(" ORDER BY ");
    reveal_strlit("\" LIMIT ");
    reveal_strlit(" LIMIT ");
    reveal_strlit("\" WHERE \"");
    reveal_strlit(" WHERE ");
    reveal_strlit("\" > $1 ORDER BY \"");
    reveal_strlit(" > $1");
    assert("SELECT \""@ =~= "SELECT "@ + "\""@);
    assert("\", "@ =~= "\""@ + ", "@);
    assert(" FROM \""@ =~= " FROM "@ + "\""@);
    assert("\" ORDER BY \""@ =~= "\""@ + " ORDER BY "@ + "\""@);
    assert("\" LIMIT "@ =~= "\""@ + " LIMIT "@);
    assert("\" WHERE \""@ =~= "\""@ + " WHERE "@ + "\""@);
    assert("\" > $1 ORDER BY \""@ =~= "\""@ + " > $1"@ + " ORDER BY "@ + "\""@);
    let what = "SELECT "@ + in_quotes(key) + ", "@ + quoted_list(cols) + " FROM "@ + in_quotes(table);
    let order = " ORDER BY "@ + in_quotes(key) + " LIMIT "@ + dec(chunk);
    assert(q.first@ =~= what + order);
    assert(q.next@ =~= what + (" WHERE "@ + in_quotes(key) + " > $1"@) + order);
}

/// A row is written to its side's table: the statement names that table, the
/// key, and every column.
pub proof fn law_row_is_written_to_its_table(q: SideSql, table: Seq<char>, key: Seq<char>, cols: Seq<Seq<char>>, chunk: nat)
    requires
        is_side_sql(q, table, key, cols, chunk),
    ensures
        q.insert@ == "INSERT INTO "@ + in_quotes(table) + " ("@ + in_quotes(key) + ", "@ + quoted_list(cols) + ") VALUES ("@ + ("$1"@
            + placeholders(cols.len())) + ")"@,
        q.update@ == "UPDATE "@ + in_quotes(table) + " SET "@ + assignments(cols) + " WHERE "@ + in_quotes(key) + " = $1"@,
        q.delete@ == "DELETE FROM "@ + in_quotes(table) + " WHERE "@ + in_quotes(key) + " = $1"@,
        q.get@ == "SELECT "@ + quoted_list(cols) + " FROM "@ + in_quotes(table) + " WHERE "@ + in_quotes(key) + " = $1"@,
{
    reveal_strlit("INSERT INTO \"");
    reveal_strlit("INSERT INTO ");
    reveal_strlit("\" (\"");
    reveal_strlit(" (");
    reveal_strlit("\"");
    reveal_strlit("\", ");
    reveal_strlit(", ");
    reveal_strlit(") VALUES ($1");
    reveal_strlit(") VALUES (");
    reveal_strlit("$1");
    reveal_strlit("UPDATE \"");
    reveal_strlit("UPDATE ");
    reveal_strlit("\" SET ");
    reveal_strlit(" SET ");
    reveal_strlit(" WHERE \"");
    reveal_strlit("\" WHERE \"");
    reveal_strlit(" WHERE ");
    reveal_strlit("\" = $1");
    reveal_strlit(" = $1");
    reveal_strlit("DELETE FROM \"");
    reveal_strlit("DELETE FROM ");
    reveal_strlit(" FROM \"");
    reveal_strlit(" FROM ");
    assert("INSERT INTO \""@ =~= "INSERT INTO "@ + "\""@);
    assert("\" (\""@ =~= "\""@ + " ("@ + "\""@);
    assert("\", "@ =~= "\""@ + ", "@);
    assert(") VALUES ($1"@ =~= ") VALUES ("@ + "$1"@);
    assert("UPDATE \""@ =~= "UPDATE "@ + "\""@);
    assert("\" SET "@ =~= "\""@ + " SET "@);
    assert(" WHERE \""@ =~= " WHERE "@ + "\""@);
    assert("\" WHERE \""@ =~= "\""@ + " WHERE "@ + "\""@);
    assert("\" = $1"@ =~= "\""@ + " = $1"@);
    assert("DELETE FROM \""@ =~= "DELETE FROM "@ + "\""@);
    assert(" FROM \""@ =~= " FROM "@ + "\""@);
    assert(q.insert@ =~= "INSERT INTO "@ + in_quotes(table) + " ("@ + in_quotes(key) + ", "@ + quoted_list(cols) + ") VALUES ("@ + ("$1"@
        + placeholders(cols.len())) + ")"@);
    assert(q.update@ =~= "UPDATE "@ + in_quotes(table) + " SET "@ + assignments(cols) + " WHERE "@ + in_quotes(key) + " = $1"@);
    assert(q.delete@ =~= "DELETE FROM "@ + in_quotes(table) + " WHERE "@ + in_quotes(key) + " = $1"@);
    assert(q.get@ =~= "SELECT "@ + quoted_list(cols) + " FROM "@ + in_quotes(table) + " WHERE "@ + in_quotes(key) + " = $1"@);
}

} // verus!
