//! The journal of a streaming map: triggers append the keys that they touch,
//! and a run drains the journal before it advances the scan. The journal is a
//! fast path and never the truth.

use vstd::prelude::*;
use vstd::string::StringExecFns;
use vstd::slice::slice_subrange;
use vstd::utf8::{decode_utf8, valid_utf8};
use crate::bytes::same_bytes;
use crate::rretl::named_at;
use crate::rretl_map::{mapping_checked, MapSpec, ResolvedModel, ResolvedTable};
use crate::rretl_map::toml_parsed;
use crate::text::{dec, lemma_dec_injective, push_dec, quoted_in, texts};
use crate::utf8::{checked_utf8, same_folded, same_text, same_text_folded};

verus! {

/// The two sides of a mapped table.
#[derive(Debug, Clone, Copy, PartialEq, Eq, Structural)]
pub enum Side {
    Source,
    Target,
}

/// The row events that a trigger listens to.
#[derive(Debug, Clone, Copy, PartialEq, Eq, Structural)]
pub enum RowEvent {
    Insert,
    Update,
    Delete,
}

/// The letter of a side.
pub open spec fn side_letter(s: Side) -> Seq<char> {
    match s {
        Side::Source => "a"@,
        Side::Target => "b"@,
    }
}

/// The letter of an event.
pub open spec fn event_letter(e: RowEvent) -> Seq<char> {
    match e {
        RowEvent::Insert => "i"@,
        RowEvent::Update => "u"@,
        RowEvent::Delete => "d"@,
    }
}

/// The name of a map's trigger on one side of its table number `i`.
pub open spec fn trigger_text(map: Seq<char>, i: nat, s: Side, e: RowEvent) -> Seq<char> {
    "rrmap_"@ + map + "_"@ + dec(i) + side_letter(s) + "_"@ + event_letter(e)
}

/// The name of a map's trigger.
pub fn trigger_name(map: &str, i: usize, side: Side, ev: RowEvent) -> (r: String)
    ensures
        r@ == trigger_text(map@, i as nat, side, ev),
{
    let mut n = quoted_in("rrmap_", map, "_");
    push_dec(&mut n, i as u128);
    match side {
        Side::Source => n.append("a"),
        Side::Target => n.append("b"),
    }
    n.append("_");
    match ev {
        RowEvent::Insert => n.append("i"),
        RowEvent::Update => n.append("u"),
        RowEvent::Delete => n.append("d"),
    }
    n
}

/// The statement that removes a trigger.
pub open spec fn drop_text(map: Seq<char>, i: nat, s: Side, e: RowEvent) -> Seq<char> {
    "DROP TRIGGER IF EXISTS "@ + trigger_text(map, i, s, e)
}

/// The statement that removes a trigger.
fn drop_trigger_sql(map: &str, i: usize, side: Side, ev: RowEvent) -> (r: String)
    ensures
        r@ == drop_text(map@, i as nat, side, ev),
{
    let n = trigger_name(map, i, side, ev);
    String::from_str("DROP TRIGGER IF EXISTS ").concat(n.as_str())
}

/// The SQL word of an event.
pub open spec fn event_word(e: RowEvent) -> Seq<char> {
    match e {
        RowEvent::Insert => "INSERT"@,
        RowEvent::Update => "UPDATE"@,
        RowEvent::Delete => "DELETE"@,
    }
}

/// The row that an event leaves to look at.
pub open spec fn event_row(e: RowEvent) -> Seq<char> {
    match e {
        RowEvent::Delete => "OLD"@,
        _ => "NEW"@,
    }
}

/// The statement that makes a trigger append the touched key to the journal
/// under the target's name, by which the map knows the pair of tables.
pub open spec fn trigger_sql(map: Seq<char>, i: nat, table: Seq<char>, key: Seq<char>, dst: Seq<char>, s: Side, e: RowEvent) -> Seq<char> {
    "CREATE TRIGGER "@ + trigger_text(map, i, s, e) + " AFTER "@ + event_word(e) + " ON \""@ + table
        + "\" FOR EACH ROW BEGIN INSERT INTO rretl_map_dirty (map, tbl, side, k) VALUES ('"@ + map + "', '"@ + dst + "', '"@
        + side_letter(s) + "', "@ + event_row(e) + ".\""@ + key + "\"); END"@
}

/// The statement that makes one trigger of a mapped table.
pub open spec fn create_text(map: Seq<char>, i: nat, rt: ResolvedModel, side: Side, ev: RowEvent) -> Seq<char> {
    match side {
        Side::Source => trigger_sql(map, i, rt.src, rt.src_key, rt.dst, side, ev),
        Side::Target => trigger_sql(map, i, rt.dst, rt.dst_key, rt.dst, side, ev),
    }
}

/// The statement that makes one trigger of a mapped table.
fn create_trigger_sql(map: &str, i: usize, rt: &ResolvedTable, side: Side, ev: RowEvent) -> (r: String)
    ensures
        r@ == create_text(map@, i as nat, rt@, side, ev),
{
    let name = trigger_name(map, i, side, ev);
    let mut q = quoted_in("CREATE TRIGGER ", name.as_str(), " AFTER ");
    match ev {
        RowEvent::Insert => q.append("INSERT"),
        RowEvent::Update => q.append("UPDATE"),
        RowEvent::Delete => q.append("DELETE"),
    }
    q.append(" ON \"");
    match side {
        Side::Source => q.append(rt.src.as_str()),
        Side::Target => q.append(rt.dst.as_str()),
    }
    q.append("\" FOR EACH ROW BEGIN INSERT INTO rretl_map_dirty (map, tbl, side, k) VALUES ('");
    q.append(map);
    q.append("', '");
    q.append(rt.dst.as_str());
    q.append("', '");
    match side {
        Side::Source => q.append("a"),
        Side::Target => q.append("b"),
    }
    q.append("', ");
    match ev {
        RowEvent::Delete => q.append("OLD"),
        _ => q.append("NEW"),
    }
    q.append(".\"");
    match side {
        Side::Source => q.append(rt.src_key.as_str()),
        Side::Target => q.append(rt.dst_key.as_str()),
    }
    q.append("\"); END");
    q
}

/// Some table of the list has the name, up to case.
pub open spec fn has_table(have: Seq<(String, Vec<String>)>, name: Seq<char>) -> bool {
    exists|i: int| 0 <= i < have.len() && same_folded((#[trigger] have[i]).0@, name)
}

/// Whether the target's triggers can be installed: only where it exists.
pub fn target_exists(have: &Vec<(String, Vec<String>)>, name: &str) -> (r: bool)
    ensures
        r == has_table(have@, name@),
{
    let mut i: usize = 0;
    while i < have.len()
        invariant
            i <= have@.len(),
            forall|j: int| 0 <= j < i ==> !same_folded((#[trigger] have@[j]).0@, name@),
        decreases have@.len() - i,
    {
        if same_text_folded(have[i].0.as_str(), name) {
            proof {
                assert(same_folded(have@[i as int].0@, name@));
            }
            return true;
        }
        i += 1;
    }
    false
}

/// The statements that install one side of a mapped table: each of its three
/// triggers is dropped and then made.
pub open spec fn side_statements(map: Seq<char>, i: nat, rt: ResolvedModel, side: Side) -> Seq<Seq<char>> {
    seq![
        drop_text(map, i, side, RowEvent::Insert),
        create_text(map, i, rt, side, RowEvent::Insert),
        drop_text(map, i, side, RowEvent::Update),
        create_text(map, i, rt, side, RowEvent::Update),
        drop_text(map, i, side, RowEvent::Delete),
        create_text(map, i, rt, side, RowEvent::Delete),
    ]
}

/// The statements that install one side of a mapped table.
pub fn install_side(map: &str, i: usize, rt: &ResolvedTable, side: Side) -> (r: Vec<String>)
    ensures
        texts(r@) == side_statements(map@, i as nat, rt@, side),
{
    let r = vec![
        drop_trigger_sql(map, i, side, RowEvent::Insert),
        create_trigger_sql(map, i, rt, side, RowEvent::Insert),
        drop_trigger_sql(map, i, side, RowEvent::Update),
        create_trigger_sql(map, i, rt, side, RowEvent::Update),
        drop_trigger_sql(map, i, side, RowEvent::Delete),
        create_trigger_sql(map, i, rt, side, RowEvent::Delete),
    ];
    proof {
        assert(texts(r@) =~= side_statements(map@, i as nat, rt@, side));
    }
    r
}

/// The statements that remove the triggers of one table.
pub open spec fn table_drops(map: Seq<char>, i: nat) -> Seq<Seq<char>> {
    seq![
        drop_text(map, i, Side::Source, RowEvent::Insert),
        drop_text(map, i, Side::Source, RowEvent::Update),
        drop_text(map, i, Side::Source, RowEvent::Delete),
        drop_text(map, i, Side::Target, RowEvent::Insert),
        drop_text(map, i, Side::Target, RowEvent::Update),
        drop_text(map, i, Side::Target, RowEvent::Delete),
    ]
}

/// The statements that remove the triggers of the first `n` tables of a map.
pub open spec fn removal(map: Seq<char>, n: nat) -> Seq<Seq<char>>
    decreases n,
{
    if n == 0 {
        Seq::empty()
    } else {
        removal(map, (n - 1) as nat) + table_drops(map, (n - 1) as nat)
    }
}

proof fn lemma_texts_join(a: Seq<String>, b: Seq<String>)
    ensures
        texts(a + b) == texts(a) + texts(b),
{
    assert(texts(a + b) =~= texts(a) + texts(b));
}

/// The statements that remove a map's triggers on its first `n` tables;
/// dropping a name that is not there does nothing.
pub fn remove(map: &str, n: usize) -> (r: Vec<String>)
    ensures
        texts(r@) == removal(map@, n as nat),
{
    let mut out: Vec<String> = Vec::new();
    proof {
        assert(texts(out@) =~= Seq::empty());
    }
    let mut i: usize = 0;
    while i < n
        invariant
            i <= n,
            texts(out@) == removal(map@, i as nat),
        decreases n - i,
    {
        let mut six = vec![
            drop_trigger_sql(map, i, Side::Source, RowEvent::Insert),
            drop_trigger_sql(map, i, Side::Source, RowEvent::Update),
            drop_trigger_sql(map, i, Side::Source, RowEvent::Delete),
            drop_trigger_sql(map, i, Side::Target, RowEvent::Insert),
            drop_trigger_sql(map, i, Side::Target, RowEvent::Update),
            drop_trigger_sql(map, i, Side::Target, RowEvent::Delete),
        ];
        proof {
            assert(texts(six@) =~= table_drops(map@, i as nat));
            lemma_texts_join(out@, six@);
        }
        out.append(&mut six);
        i += 1;
    }
    out
}

/// The statements that install the first `n` mapped tables. A target that does
/// not exist yet gets its triggers when it is made.
pub open spec fn installation(map: Seq<char>, rts: Seq<ResolvedTable>, have: Seq<(String, Vec<String>)>, n: nat) -> Seq<Seq<char>>
    decreases n,
{
    if n == 0 {
        Seq::empty()
    } else {
        let i = (n - 1) as nat;
        let rt = rts[i as int]@;
        let sources = installation(map, rts, have, i) + side_statements(map, i, rt, Side::Source);
        if has_table(have, rt.dst) {
            sources + side_statements(map, i, rt, Side::Target)
        } else {
            sources
        }
    }
}

/// The larger of two counts of tables.
pub open spec fn covered(prior: nat, now: nat) -> nat {
    if prior >= now { prior } else { now }
}

/// The statements that install a map's triggers. The names of the old mapping,
/// which had `prior` tables, are dropped first, so that a new definition leaves
/// no stale trigger behind.
pub fn install(map: &str, tables: &Vec<ResolvedTable>, prior: usize, have: &Vec<(String, Vec<String>)>) -> (r: Vec<String>)
    ensures
        texts(r@) == removal(map@, covered(prior as nat, tables@.len())) + installation(map@, tables@, have@, tables@.len()),
{
    let n: usize = if prior >= tables.len() {
        prior
    } else {
        tables.len()
    };
    let mut out = remove(map, n);
    let ghost removed = removal(map@, n as nat);
    proof {
        assert(removed + installation(map@, tables@, have@, 0) =~= removed);
    }
    let mut i: usize = 0;
    while i < tables.len()
        invariant
            i <= tables@.len(),
            texts(out@) == removed + installation(map@, tables@, have@, i as nat),
        decreases tables@.len() - i,
    {
        let ghost before = installation(map@, tables@, have@, i as nat);
        let mut source = install_side(map, i, &tables[i], Side::Source);
        proof {
            lemma_texts_join(out@, source@);
            assert(texts(out@) + texts(source@) =~= removed + (before + texts(source@)));
        }
        let ghost sources = before + texts(source@);
        out.append(&mut source);
        if target_exists(have, tables[i].dst.as_str()) {
            let mut target = install_side(map, i, &tables[i], Side::Target);
            proof {
                lemma_texts_join(out@, target@);
                assert(texts(out@) + texts(target@) =~= removed + (sources + texts(target@)));
            }
            out.append(&mut target);
        }
        i += 1;
    }
    out
}

/// The statement that drops what a map has queued, where there is a journal.
/// A whole sync leaves nothing outstanding, so it ends with this.
pub fn clear(have: &Vec<(String, Vec<String>)>) -> (r: Option<String>)
    ensures
        r is Some <==> named_at(have@, "rretl_map_dirty"@, 0) is Some,
        r is Some ==> r->Some_0@ == "DELETE FROM rretl_map_dirty WHERE map = $1"@,
{
    let mut i: usize = 0;
    while i < have.len()
        invariant
            i <= have@.len(),
            named_at(have@, "rretl_map_dirty"@, 0) == named_at(have@, "rretl_map_dirty"@, i as int),
        decreases have@.len() - i,
    {
        if same_text(have[i].0.as_str(), "rretl_map_dirty") {
            return Some(String::from_str("DELETE FROM rretl_map_dirty WHERE map = $1"));
        }
        i += 1;
    }
    None
}

// ------------------------------------------------------------------ drain

/// An entry before `i` has the same key.
pub open spec fn seen_before(refs: Seq<Vec<u8>>, i: int) -> bool {
    exists|j: int| 0 <= j < i && (#[trigger] refs[j])@ == refs[i]@
}

/// The places of the entries whose key did not come before.
pub open spec fn first_places(refs: Seq<Vec<u8>>, n: nat) -> Seq<usize>
    decreases n,
{
    if n == 0 {
        Seq::empty()
    } else if seen_before(refs, n - 1) {
        first_places(refs, (n - 1) as nat)
    } else {
        first_places(refs, (n - 1) as nat).push((n - 1) as usize)
    }
}

/// The journal entries to sync: each distinct key once, where it first occurs.
pub fn drain_chunk(refs: &Vec<Vec<u8>>) -> (r: Vec<usize>)
    ensures
        r@ == first_places(refs@, refs@.len()),
{
    let mut out: Vec<usize> = Vec::new();
    let mut i: usize = 0;
    while i < refs.len()
        invariant
            i <= refs@.len(),
            out@ == first_places(refs@, i as nat),
        decreases refs@.len() - i,
    {
        let mut j: usize = 0;
        let mut seen = false;
        while j < i && !seen
            invariant
                j <= i < refs@.len(),
                seen ==> seen_before(refs@, i as int),
                !seen ==> forall|k: int| 0 <= k < j ==> (#[trigger] refs@[k])@ != refs@[i as int]@,
            decreases i - j, (if seen { 0int } else { 1int }),
        {
            if same_bytes(refs[j].as_slice(), refs[i].as_slice()) {
                seen = true;
                proof {
                    assert(refs@[j as int]@ == refs@[i as int]@);
                }
            } else {
                j += 1;
            }
        }
        if !seen {
            out.push(i);
        }
        i += 1;
    }
    out
}

/// Which of the three passes a journalled key falls to.
#[derive(Debug, Clone, Copy, PartialEq, Eq, Structural)]
pub enum KeyPass {
    /// The source has the row.
    Source,
    /// Only the target has it.
    Target,
    /// Neither has it: sweep its record.
    Sweep,
}

/// Which of the three passes a journalled key falls to.
pub fn sync_one_key(in_source: bool, in_target: bool) -> (r: KeyPass)
    ensures
        r == (if in_source {
            KeyPass::Source
        } else if in_target {
            KeyPass::Target
        } else {
            KeyPass::Sweep
        }),
{
    if in_source {
        KeyPass::Source
    } else if in_target {
        KeyPass::Target
    } else {
        KeyPass::Sweep
    }
}

/// How many tables the mapping of a stored record had; a record that does not
/// parse any more covers none.
pub open spec fn tables_recorded(prior: Option<Seq<u8>>) -> nat {
    match prior {
        None => 0,
        Some(b) => if b.len() == 0 || !valid_utf8(b.skip(1)) {
            0
        } else {
            match toml_parsed(decode_utf8(b.skip(1))) {
                Err(_) => 0,
                Ok(doc) => match mapping_checked(doc) {
                    Ok(m) => m.tables.len(),
                    Err(_) => 0,
                },
            }
        },
    }
}

/// How many tables the map's stored mapping had.
pub fn prior_table_count(prior: Option<&[u8]>) -> (r: usize)
    ensures
        r == tables_recorded(match prior {
            Some(b) => Some(b@),
            None => None,
        }),
{
    let b = match prior {
        Some(b) => b,
        None => {
            return 0;
        },
    };
    if b.len() == 0 {
        return 0;
    }
    let body = slice_subrange(b, 1, b.len());
    proof {
        assert(body@ =~= b@.skip(1));
    }
    let text = match checked_utf8(body) {
        Some(t) => t,
        None => {
            return 0;
        },
    };
    match MapSpec::from_toml_str(text) {
        Ok(s) => s.tables.len(),
        Err(_) => 0,
    }
}

// ---------------------------------------------------------------- laws

proof fn lemma_dec_no_underscore(n: nat, k: int)
    requires
        0 <= k < dec(n).len(),
    ensures
        dec(n)[k] != '_',
    decreases n,
{
    if n >= 10 && k < dec(n).len() - 1 {
        lemma_dec_no_underscore(n / 10, k);
        assert(dec(n)[k] == dec(n / 10)[k]);
    }
}

/// A trigger's name tells the map, the table's number, the side and the event:
/// no two triggers of any maps share a name.
pub proof fn law_trigger_names_distinct(m: Seq<char>, i: nat, s: Side, e: RowEvent, n: Seq<char>, j: nat, t: Side, f: RowEvent)
    requires
        trigger_text(m, i, s, e) == trigger_text(n, j, t, f),
    ensures
        m == n,
        i == j,
        s == t,
        e == f,
{
    reveal_strlit("rrmap_");
    reveal_strlit("_");
    reveal_strlit("a");
    reveal_strlit("b");
    reveal_strlit("i");
    reveal_strlit("u");
    reveal_strlit("d");
    let x = trigger_text(m, i, s, e);
    let y = trigger_text(n, j, t, f);
    let len = x.len() as int;
    assert(side_letter(s).len() == 1 && side_letter(t).len() == 1);
    assert(event_letter(e).len() == 1 && event_letter(f).len() == 1);
    assert(x[len - 1] == event_letter(e)[0]);
    assert(y[len - 1] == event_letter(f)[0]);
    assert(e == f);
    assert(x[len - 3] == side_letter(s)[0]);
    assert(y[len - 3] == side_letter(t)[0]);
    assert(s == t);
    let (d, g) = (dec(i), dec(j));
    let (a, b) = ("rrmap_"@ + m + "_"@, "rrmap_"@ + n + "_"@);
    assert(x.take(len - 3) =~= a + d);
    assert(y.take(len - 3) =~= b + g);
    let w = x.take(len - 3);
    let c = len - 3;
    if d.len() < g.len() {
        let k = c - d.len() - 1;
        assert((a + d)[k] == '_');
        let q = k - b.len();
        assert((b + g)[k] == g[q]);
        lemma_dec_no_underscore(j, q);
    } else if g.len() < d.len() {
        let k = c - g.len() - 1;
        assert((b + g)[k] == '_');
        let q = k - a.len();
        assert((a + d)[k] == d[q]);
        lemma_dec_no_underscore(i, q);
    }
    assert(a.len() == b.len());
    assert(w.skip(a.len() as int) =~= d);
    assert(w.skip(a.len() as int) =~= g);
    lemma_dec_injective(i, j);
    assert(w.take(a.len() as int) =~= a);
    assert(w.take(a.len() as int) =~= b);
    assert(a.subrange(6, 6 + m.len() as int) =~= m);
    assert(b.subrange(6, 6 + n.len() as int) =~= n);
}

proof fn lemma_first_places(refs: Seq<Vec<u8>>, n: nat, i: int)
    requires
        n <= refs.len() <= usize::MAX,
        0 <= i < n,
    ensures
        exists|p: int| 0 <= p < first_places(refs, n).len() && refs[#[trigger] first_places(refs, n)[p] as int]@ == refs[i]@ && first_places(refs, n)[p] <= i,
    decreases n,
{
    let prev = first_places(refs, (n - 1) as nat);
    let all = first_places(refs, n);
    if i < n - 1 {
        lemma_first_places(refs, (n - 1) as nat, i);
        let p = choose|p: int| 0 <= p < prev.len() && refs[#[trigger] prev[p] as int]@ == refs[i]@ && prev[p] <= i;
        assert(all[p] == prev[p]);
    } else if seen_before(refs, i) {
        let j = choose|j: int| 0 <= j < i && (#[trigger] refs[j])@ == refs[i]@;
        lemma_first_places(refs, (n - 1) as nat, j);
        let p = choose|p: int| 0 <= p < prev.len() && refs[#[trigger] prev[p] as int]@ == refs[j]@ && prev[p] <= j;
        assert(all[p] == prev[p]);
    } else {
        assert(all[prev.len() as int] == i);
    }
}

/// Every key of a drained chunk is synced: some entry that is taken has it,
/// and comes no later.
pub proof fn law_drain_covers_every_key(refs: Seq<Vec<u8>>, i: int)
    requires
        refs.len() <= usize::MAX,
        0 <= i < refs.len(),
    ensures
        exists|p: int| 0 <= p < first_places(refs, refs.len()).len() && refs[#[trigger] first_places(refs, refs.len())[p] as int]@ == refs[i]@
            && first_places(refs, refs.len())[p] <= i,
{
    lemma_first_places(refs, refs.len(), i);
}

proof fn lemma_removed(map: Seq<char>, n: nat, i: nat, s: Side, e: RowEvent)
    requires
        i < n,
    ensures
        removal(map, n).contains(drop_text(map, i, s, e)),
    decreases n,
{
    let before = removal(map, (n - 1) as nat);
    let six = table_drops(map, (n - 1) as nat);
    let d = drop_text(map, i, s, e);
    if i < n - 1 {
        lemma_removed(map, (n - 1) as nat, i, s, e);
        let k = before.index_of(d);
        assert((before + six)[k] == d);
    } else {
        let k: int = match (s, e) {
            (Side::Source, RowEvent::Insert) => 0,
            (Side::Source, RowEvent::Update) => 1,
            (Side::Source, RowEvent::Delete) => 2,
            (Side::Target, RowEvent::Insert) => 3,
            (Side::Target, RowEvent::Update) => 4,
            (Side::Target, RowEvent::Delete) => 5,
        };
        assert(six[k] == d);
        assert((before + six)[before.len() + k] == d);
    }
}

/// A new definition leaves no trigger of the old one behind: every trigger
/// name of the old mapping and of the new one is dropped before any is made.
pub proof fn law_redefine_drops_every_trigger(map: Seq<char>, prior: nat, now: nat, i: nat, s: Side, e: RowEvent)
    requires
        i < prior || i < now,
    ensures
        removal(map, covered(prior, now)).contains(drop_text(map, i, s, e)),
{
    lemma_removed(map, covered(prior, now), i, s, e);
}

/// The statement `x` comes directly before the statement `y`.
pub open spec fn follows_directly(list: Seq<Seq<char>>, x: Seq<char>, y: Seq<char>) -> bool {
    exists|k: int| 0 <= k < list.len() - 1 && #[trigger] list[k] == x && list[k + 1] == y
}

proof fn lemma_follows_in_join(a: Seq<Seq<char>>, b: Seq<Seq<char>>, x: Seq<char>, y: Seq<char>)
    ensures
        follows_directly(a, x, y) ==> follows_directly(a + b, x, y),
        follows_directly(b, x, y) ==> follows_directly(a + b, x, y),
{
    if follows_directly(a, x, y) {
        let k = choose|k: int| 0 <= k < a.len() - 1 && #[trigger] a[k] == x && a[k + 1] == y;
        assert((a + b)[k] == x && (a + b)[k + 1] == y);
    }
    if follows_directly(b, x, y) {
        let k = choose|k: int| 0 <= k < b.len() - 1 && #[trigger] b[k] == x && b[k + 1] == y;
        assert((a + b)[a.len() + k] == x && (a + b)[a.len() + k + 1] == y);
    }
}

/// Every mapped table gets its three triggers on the source, and on the target
/// where that exists; each is dropped directly before it is made, so that
/// installing twice is no error.
pub proof fn law_install_covers_every_table(
    map: Seq<char>,
    rts: Seq<ResolvedTable>,
    have: Seq<(String, Vec<String>)>,
    n: nat,
    i: nat,
    s: Side,
    e: RowEvent,
)
    requires
        i < n <= rts.len(),
        s == Side::Source || has_table(have, rts[i as int]@.dst),
    ensures
        follows_directly(installation(map, rts, have, n), drop_text(map, i, s, e), create_text(map, i, rts[i as int]@, s, e)),
    decreases n,
{
    let before = installation(map, rts, have, (n - 1) as nat);
    let rt = rts[n - 1]@;
    let source = side_statements(map, (n - 1) as nat, rt, Side::Source);
    let target = side_statements(map, (n - 1) as nat, rt, Side::Target);
    let (x, y) = (drop_text(map, i, s, e), create_text(map, i, rts[i as int]@, s, e));
    if i < n - 1 {
        law_install_covers_every_table(map, rts, have, (n - 1) as nat, i, s, e);
    } else {
        let k: int = match e {
            RowEvent::Insert => 0,
            RowEvent::Update => 2,
            RowEvent::Delete => 4,
        };
        if s == Side::Source {
            assert(source[k] == x && source[k + 1] == y);
        } else {
            assert(target[k] == x && target[k + 1] == y);
        }
    }
    lemma_follows_in_join(before, source, x, y);
    lemma_follows_in_join(before + source, target, x, y);
}

/// Every change of a row reaches the journal. The trigger for an event fires
/// behind that very event, on the table of its side, for each row, and appends
/// one entry: the map, the pair by its target's name, the side, and that side's
/// key of the row that the event leaves to look at, which is the old one where
/// the row is gone.
pub proof fn law_trigger_journals_its_event(map: Seq<char>, i: nat, rt: ResolvedModel, side: Side, ev: RowEvent)
    ensures
        ({
            let (table, key) = if side == Side::Source { (rt.src, rt.src_key) } else { (rt.dst, rt.dst_key) };
            let fires = if ev == RowEvent::Insert { " AFTER INSERT ON \""@ } else if ev == RowEvent::Update { " AFTER UPDATE ON \""@ } else {
                " AFTER DELETE ON \""@
            };
            let entry = if side == Side::Source { "', 'a', "@ } else { "', 'b', "@ };
            let left = if ev == RowEvent::Delete { "OLD.\""@ } else { "NEW.\""@ };
            create_text(map, i, rt, side, ev) == "CREATE TRIGGER "@ + trigger_text(map, i, side, ev) + fires + table
                + "\" FOR EACH ROW BEGIN INSERT INTO rretl_map_dirty (map, tbl, side, k) VALUES ('"@ + map + "', '"@ + rt.dst + entry + left
                + key + "\"); END"@
        }),
{
    let (table, key) = if side == Side::Source { (rt.src, rt.src_key) } else { (rt.dst, rt.dst_key) };
    reveal_strlit(" AFTER ");
    reveal_strlit("INSERT");
    reveal_strlit("UPDATE");
    reveal_strlit("DELETE");
    reveal_strlit(" ON \"");
    reveal_strlit(" AFTER INSERT ON \"");
    reveal_strlit(" AFTER UPDATE ON \"");
    reveal_strlit(" AFTER DELETE ON \"");
    reveal_strlit("', '");
    reveal_strlit("', ");
    reveal_strlit("a");
    reveal_strlit("b");
    reveal_strlit("', 'a', ");
    reveal_strlit("', 'b', ");
    reveal_strlit("OLD");
    reveal_strlit("NEW");
    reveal_strlit(".\"");
    reveal_strlit("OLD.\"");
    reveal_strlit("NEW.\"");
    let fires = if ev == RowEvent::Insert { " AFTER INSERT ON \""@ } else if ev == RowEvent::Update { " AFTER UPDATE ON \""@ } else {
        " AFTER DELETE ON \""@
    };
    let entry = if side == Side::Source { "', 'a', "@ } else { "', 'b', "@ };
    let left = if ev == RowEvent::Delete { "OLD.\""@ } else { "NEW.\""@ };
    assert(fires =~= " AFTER "@ + event_word(ev) + " ON \""@);
    assert(entry =~= "', '"@ + side_letter(side) + "', "@);
    assert(left =~= event_row(ev) + ".\""@);
    let want = "CREATE TRIGGER "@ + trigger_text(map, i, side, ev) + fires + table
        + "\" FOR EACH ROW BEGIN INSERT INTO rretl_map_dirty (map, tbl, side, k) VALUES ('"@ + map + "', '"@ + rt.dst + entry + left + key
        + "\"); END"@;
    assert(create_text(map, i, rt, side, ev) =~= want);
}

/// No two events share what is done for them: behind their names, the triggers
/// of different events differ.
pub proof fn law_triggers_differ_in_what_they_do(map: Seq<char>, i: nat, rt: ResolvedModel, s: Side, e: RowEvent, t: Side, f: RowEvent)
    requires
        create_text(map, i, rt, s, e).skip(15 + trigger_text(map, i, s, e).len() as int) == create_text(map, i, rt, t, f).skip(
            15 + trigger_text(map, i, t, f).len() as int,
        ),
    ensures
        e == f,
{
    lemma_event_letter(map, i, rt, s, e);
    lemma_event_letter(map, i, rt, t, f);
    let x = create_text(map, i, rt, s, e).skip(15 + trigger_text(map, i, s, e).len() as int);
    let y = create_text(map, i, rt, t, f).skip(15 + trigger_text(map, i, t, f).len() as int);
    assert(x[7] == create_text(map, i, rt, s, e)[22 + trigger_text(map, i, s, e).len() as int]);
    assert(y[7] == create_text(map, i, rt, t, f)[22 + trigger_text(map, i, t, f).len() as int]);
}

proof fn lemma_event_letter(map: Seq<char>, i: nat, rt: ResolvedModel, s: Side, e: RowEvent)
    ensures
        create_text(map, i, rt, s, e).len() > 22 + trigger_text(map, i, s, e).len(),
        create_text(map, i, rt, s, e)[22 + trigger_text(map, i, s, e).len() as int] == (if e == RowEvent::Insert {
            'I'
        } else if e == RowEvent::Update {
            'U'
        } else {
            'D'
        }),
{
    reveal_strlit("CREATE TRIGGER ");
    reveal_strlit(" AFTER ");
    reveal_strlit("INSERT");
    reveal_strlit("UPDATE");
    reveal_strlit("DELETE");
    let n = trigger_text(map, i, s, e);
    let head = "CREATE TRIGGER "@ + n + " AFTER "@;
    assert(head.len() == 22 + n.len());
    assert((head + event_word(e))[22 + n.len() as int] == event_word(e)[0]);
}

/// A removal names the very trigger that was made.
pub proof fn law_drop_names_the_trigger(map: Seq<char>, i: nat, rt: ResolvedModel, s: Side, e: RowEvent)
    ensures
        drop_text(map, i, s, e) == "DROP TRIGGER IF EXISTS "@ + trigger_text(map, i, s, e),
        create_text(map, i, rt, s, e).take(15 + trigger_text(map, i, s, e).len() as int) == "CREATE TRIGGER "@ + trigger_text(map, i, s, e),
{
    law_trigger_journals_its_event(map, i, rt, s, e);
    reveal_strlit("CREATE TRIGGER ");
    assert(create_text(map, i, rt, s, e).take(15 + trigger_text(map, i, s, e).len() as int) =~= "CREATE TRIGGER "@ + trigger_text(
        map,
        i,
        s,
        e,
    ));
}

/// The places that a drain takes are places of the chunk, in rising order, and
/// no key is taken twice.
pub proof fn law_drain_takes_each_key_once(refs: Seq<Vec<u8>>, n: nat)
    requires
        n <= refs.len() <= usize::MAX,
    ensures
        forall|p: int| 0 <= p < first_places(refs, n).len() ==> #[trigger] first_places(refs, n)[p] < n,
        forall|p: int, q: int|
            0 <= p < q < first_places(refs, n).len() ==> #[trigger] first_places(refs, n)[p] < #[trigger] first_places(refs, n)[q],
        forall|p: int, q: int|
            0 <= p < q < first_places(refs, n).len() ==> refs[#[trigger] first_places(refs, n)[p] as int]@ != refs[#[trigger] first_places(
                refs,
                n,
            )[q] as int]@,
    decreases n,
{
    if n > 0 {
        law_drain_takes_each_key_once(refs, (n - 1) as nat);
        let before = first_places(refs, (n - 1) as nat);
        let all = first_places(refs, n);
        if !seen_before(refs, n - 1) {
            assert forall|p: int, q: int| 0 <= p < q < all.len() implies #[trigger] all[p] < #[trigger] all[q] && refs[all[p] as int]@
                != refs[all[q] as int]@ by {
                assert(all[p] == before[p]);
                if q < before.len() {
                    assert(all[q] == before[q]);
                } else {
                    assert(all[q] == n - 1);
                    assert(refs[all[p] as int]@ != refs[n - 1]@);
                }
            }
        }
    }
}

} // verus!
