//! The databases and the temporary views of one connection.

use vstd::prelude::*;
use vstd::string::{StrSliceExecFns, StringExecFns};
use crate::error::{Error, Fault, Result};
use crate::text::{chars_of, dec, is_white_space, push_dec, quoted_in, white_space};
use crate::utf8::{same_folded, same_text, same_text_folded};

verus! {

/// How many databases a connection can attach.
pub const MAX_ATTACHED: usize = 10;

/// One attached database.
#[derive(Debug)]
pub struct Attached {
    pub name: String,
    /// Its file goes away when it is detached.
    pub ephemeral: bool,
}

/// The databases attached to a connection, in the order of attachment.
/// Whatever changes the list moves the epoch.
#[derive(Debug)]
pub struct AttachList {
    members: Vec<Attached>,
    epoch: u64,
}

/// What an ATTACH opens.
#[derive(Debug, Clone, Copy, PartialEq, Eq, Structural)]
pub enum AttachTarget {
    /// A fresh empty database that goes away with the attachment.
    Memory,
    /// The file at the path, made if it is not there.
    File,
}

/// The place of the first member of that name, up to case, from `i` on.
pub open spec fn member_at(members: Seq<Attached>, name: Seq<char>, i: int) -> Option<int>
    decreases members.len() - i,
{
    if i < 0 || i >= members.len() {
        None
    } else if same_folded(members[i].name@, name) {
        Some(i)
    } else {
        member_at(members, name, i + 1)
    }
}

/// How many of the first `n` members the user attached; the `temp` schema is
/// not one of them.
pub open spec fn user_members(members: Seq<Attached>, n: nat) -> nat
    decreases n,
{
    if n == 0 {
        0
    } else {
        user_members(members, (n - 1) as nat) + if same_folded(members[n - 1].name@, "temp"@) { 0nat } else { 1nat }
    }
}

/// A name that only the connection itself uses.
pub open spec fn reserved_name(name: Seq<char>) -> bool {
    same_folded(name, "main"@) || same_folded(name, "temp"@)
}

pub open spec fn starts_with(s: Seq<char>, p: Seq<char>) -> bool {
    s.len() >= p.len() && s.take(p.len() as int) == p
}

/// The path names no file.
pub open spec fn memory_path(path: Seq<char>) -> bool {
    path == ":memory:"@ || path == "file::memory:"@ || path.len() == 0
}

/// Why a database cannot be attached.
pub open spec fn attach_fault(list: AttachList, path: Seq<char>, name: Seq<char>) -> Option<Fault> {
    if name.len() == 0 || name.contains('.') {
        Some(Fault::Bind("attach name must be non-empty and contain no '.'"@))
    } else if reserved_name(name) {
        Some(Fault::Bind("database "@ + name + " is already in use"@))
    } else if starts_with(path, "file:"@) && path != "file::memory:"@ {
        Some(
            Fault::Unsupported(
                "ATTACH of URI databases is not supported; attach an existing .mpedb file by path, or ':memory:'"@,
            ),
        )
    } else if member_at(list.attached(), name, 0) is Some {
        Some(Fault::Bind("database "@ + name + " is already in use"@))
    } else if user_members(list.attached(), list.attached().len()) >= MAX_ATTACHED {
        Some(Fault::Unsupported("too many attached databases - max 10"@))
    } else {
        None
    }
}

fn has_dot(name: &str) -> (r: bool)
    ensures
        r == name@.contains('.'),
{
    let cs = chars_of(name);
    let mut i: usize = 0;
    while i < cs.len()
        invariant
            i <= cs@.len(),
            cs@ == name@,
            forall|j: int| 0 <= j < i ==> #[trigger] cs@[j] != '.',
        decreases cs@.len() - i,
    {
        if cs[i] == '.' {
            assert(name@[i as int] == '.');
            return true;
        }
        i += 1;
    }
    false
}

fn begins_text(s: &str, p: &str) -> (r: bool)
    ensures
        r == starts_with(s@, p@),
{
    let n: usize = p.unicode_len();
    if s.unicode_len() < n {
        return false;
    }
    let head = s.substring_char(0, n);
    proof {
        assert(s@.subrange(0, n as int) =~= s@.take(n as int));
    }
    same_text(head, p)
}

impl AttachList {
    /// The members, in the order of attachment.
    pub closed spec fn attached(&self) -> Seq<Attached> {
        self.members@
    }

    /// The epoch.
    pub closed spec fn moves(&self) -> u64 {
        self.epoch
    }

    /// The members, in the order of attachment.
    pub fn members(&self) -> (r: &Vec<Attached>)
        ensures
            r@ == self.attached(),
    {
        &self.members
    }

    /// The epoch.
    pub fn epoch(&self) -> (r: u64)
        ensures
            r == self.moves(),
    {
        self.epoch
    }

    /// No two members have one name, and none has the name `main`.
    pub open spec fn wf(&self) -> bool {
        &&& forall|i: int, j: int|
            0 <= i < j < self.attached().len() ==> !same_folded((#[trigger] self.attached()[i]).name@, (#[trigger] self.attached()[j]).name@)
        &&& forall|i: int| 0 <= i < self.attached().len() ==> !same_folded((#[trigger] self.attached()[i]).name@, "main"@)
    }

    /// A connection without attachments.
    pub fn new() -> (l: AttachList)
        ensures
            l.wf(),
            l.attached().len() == 0,
            l.moves() == 0,
    {
        AttachList { members: Vec::new(), epoch: 0 }
    }

    /// The member of a name, up to case.
    pub fn find(&self, name: &str) -> (r: Option<usize>)
        ensures
            match r {
                Some(i) => i < self.attached().len() && member_at(self.attached(), name@, 0) == Some(i as int),
                None => member_at(self.attached(), name@, 0) is None,
            },
    {
        let mut i: usize = 0;
        while i < self.members.len()
            invariant
                i <= self.attached().len(),
                member_at(self.attached(), name@, 0) == member_at(self.attached(), name@, i as int),
            decreases self.attached().len() - i,
        {
            if same_text_folded(self.members[i].name.as_str(), name) {
                return Some(i);
            }
            i += 1;
        }
        None
    }

    fn user_count(&self) -> (n: usize)
        ensures
            n == user_members(self.attached(), self.attached().len()),
    {
        let mut n: usize = 0;
        let mut i: usize = 0;
        while i < self.members.len()
            invariant
                i <= self.attached().len(),
                n <= i,
                n == user_members(self.attached(), i as nat),
            decreases self.attached().len() - i,
        {
            if !same_text_folded(self.members[i].name.as_str(), "temp") {
                n += 1;
            }
            i += 1;
        }
        n
    }

    /// Whether a database can be attached, and what is to be opened.
    pub fn attach_gate(&self, path: &str, name: &str) -> (r: Result<AttachTarget>)
        ensures
            match r {
                Ok(t) => attach_fault(*self, path@, name@) is None && t == (if memory_path(path@) {
                    AttachTarget::Memory
                } else {
                    AttachTarget::File
                }),
                Err(e) => attach_fault(*self, path@, name@) == Some(e@),
            },
    {
        if name.unicode_len() == 0 || has_dot(name) {
            return Err(Error::Bind(String::from_str("attach name must be non-empty and contain no '.'")));
        }
        if same_text_folded(name, "main") || same_text_folded(name, "temp") {
            return Err(Error::Bind(quoted_in("database ", name, " is already in use")));
        }
        if begins_text(path, "file:") && !same_text(path, "file::memory:") {
            return Err(
                Error::Unsupported(
                    String::from_str(
                        "ATTACH of URI databases is not supported; attach an existing .mpedb file by path, or ':memory:'",
                    ),
                ),
            );
        }
        if self.find(name).is_some() {
            return Err(Error::Bind(quoted_in("database ", name, " is already in use")));
        }
        if self.user_count() >= MAX_ATTACHED {
            return Err(Error::Unsupported(String::from_str("too many attached databases - max 10")));
        }
        if same_text(path, ":memory:") || same_text(path, "file::memory:") || path.unicode_len() == 0 {
            Ok(AttachTarget::Memory)
        } else {
            Ok(AttachTarget::File)
        }
    }

    /// Add a member whose database has been opened.
    pub fn attach(&mut self, name: String, ephemeral: bool)
        requires
            old(self).wf(),
            old(self).moves() < u64::MAX,
            member_at(old(self).attached(), name@, 0) is None,
            !same_folded(name@, "main"@),
        ensures
            final(self).wf(),
            final(self).attached() == old(self).attached().push((Attached { name, ephemeral })),
            final(self).moves() == old(self).moves() + 1,
    {
        let ghost before = self.attached();
        let ghost label = name@;
        self.members.push(Attached { name, ephemeral });
        self.epoch = self.epoch + 1;
        proof {
            assert forall|i: int, j: int| 0 <= i < j < self.attached().len() implies !same_folded(
                (#[trigger] self.attached()[i]).name@,
                (#[trigger] self.attached()[j]).name@,
            ) by {
                lemma_absent(before, label, 0, i);
            }
        }
    }

    /// Bring the connection's own `temp` schema in, once. It does not count
    /// against the limit. Tells whether it was added.
    pub fn ensure_temp(&mut self) -> (added: bool)
        requires
            old(self).wf(),
            old(self).moves() < u64::MAX,
        ensures
            final(self).wf(),
            added == (member_at(old(self).attached(), "temp"@, 0) is None),
            !added ==> *final(self) == *old(self),
            added ==> {
                &&& final(self).attached().len() == old(self).attached().len() + 1
                &&& final(self).attached().take(old(self).attached().len() as int) == old(self).attached()
                &&& final(self).attached().last().name@ == "temp"@
                &&& final(self).attached().last().ephemeral
                &&& final(self).moves() == old(self).moves() + 1
            },
    {
        if self.find("temp").is_some() {
            return false;
        }
        let ghost before = self.attached();
        proof {
            lemma_temp_is_not_main();
        }
        self.attach(String::from_str("temp"), true);
        proof {
            assert(self.attached().take(before.len() as int) =~= before);
        }
        true
    }

    /// Detach a database. Gives its place and whether its file goes away.
    pub fn detach(&mut self, name: &str) -> (r: Result<(usize, bool)>)
        requires
            old(self).wf(),
            old(self).moves() < u64::MAX,
        ensures
            final(self).wf(),
            match r {
                Ok((i, ephemeral)) => {
                    &&& !reserved_name(name@)
                    &&& member_at(old(self).attached(), name@, 0) == Some(i as int)
                    &&& i < old(self).attached().len()
                    &&& ephemeral == old(self).attached()[i as int].ephemeral
                    &&& final(self).attached() == old(self).attached().remove(i as int)
                    &&& final(self).moves() == old(self).moves() + 1
                },
                Err(e) => *final(self) == *old(self) && if reserved_name(name@) {
                    e@ == Fault::Bind("cannot detach database "@ + name@)
                } else {
                    member_at(old(self).attached(), name@, 0) is None && e@ == Fault::Bind("no such database: "@ + name@)
                },
            },
    {
        if same_text_folded(name, "main") || same_text_folded(name, "temp") {
            let mut m = String::from_str("cannot detach database ");
            m.append(name);
            return Err(Error::Bind(m));
        }
        match self.find(name) {
            None => {
                let mut m = String::from_str("no such database: ");
                m.append(name);
                Err(Error::Bind(m))
            },
            Some(i) => {
                let member = self.members.remove(i);
                self.epoch = self.epoch + 1;
                Ok((i, member.ephemeral))
            },
        }
    }

    /// The member that a statement on one attached database runs on.
    pub fn require(&self, name: &str) -> (r: Result<usize>)
        ensures
            match r {
                Ok(i) => i < self.attached().len() && member_at(self.attached(), name@, 0) == Some(i as int),
                Err(e) => member_at(self.attached(), name@, 0) is None && e@ == Fault::Bind("no such database: "@ + name@),
            },
    {
        match self.find(name) {
            Some(i) => Ok(i),
            None => {
                let mut m = String::from_str("no such database: ");
                m.append(name);
                Err(Error::Bind(m))
            },
        }
    }
}

proof fn lemma_temp_is_not_main()
    ensures
        !same_folded("temp"@, "main"@),
{
    reveal_strlit("temp");
    reveal_strlit("main");
    let (x, y) = (vstd::utf8::encode_utf8("temp"@), vstd::utf8::encode_utf8("main"@));
    vstd::utf8::is_ascii_chars_encode_utf8("temp"@);
    vstd::utf8::is_ascii_chars_encode_utf8("main"@);
    assert(x.len() == 4);
    assert(x[0] == 't' as u8 && y[0] == 'm' as u8);
    assert(crate::utf8::fold_byte(x[0]) != crate::utf8::fold_byte(y[0]));
}

proof fn lemma_absent(members: Seq<Attached>, name: Seq<char>, from: int, i: int)
    requires
        member_at(members, name, from) is None,
        0 <= from <= i < members.len(),
    ensures
        !same_folded(members[i].name@, name),
    decreases i - from,
{
    if from < i {
        lemma_absent(members, name, from + 1, i);
    }
}

// ---------------------------------------------------------------- files

/// A path inside a quoted configuration string: backslashes and quotes are
/// escaped.
pub open spec fn escaped(path: Seq<char>) -> Seq<char>
    decreases path.len(),
{
    if path.len() == 0 {
        Seq::empty()
    } else {
        let c = path.last();
        escaped(path.drop_last()) + if c == '\\' {
            "\\\\"@
        } else if c == '"' {
            "\\\""@
        } else {
            seq![c]
        }
    }
}

fn push_escaped(s: &mut String, path: &str)
    ensures
        final(s)@ == old(s)@ + escaped(path@),
{
    let cs = chars_of(path);
    let mut i: usize = 0;
    proof {
        assert(path@.take(0) =~= Seq::<char>::empty());
        assert(s@ =~= old(s)@ + escaped(path@.take(0)));
    }
    while i < cs.len()
        invariant
            i <= cs@.len(),
            cs@ == path@,
            s@ == old(s)@ + escaped(path@.take(i as int)),
        decreases cs@.len() - i,
    {
        if cs[i] == '\\' {
            s.append("\\\\");
        } else if cs[i] == '"' {
            s.append("\\\"");
        } else {
            s.append(path.substring_char(i, i + 1));
        }
        proof {
            assert(path@.take(i + 1).drop_last() =~= path@.take(i as int));
            assert(path@.subrange(i as int, i + 1) =~= seq![path@[i as int]]);
            assert(s@ =~= old(s)@ + escaped(path@.take(i + 1)));
        }
        i += 1;
    }
    proof {
        assert(path@.take(i as int) =~= path@);
    }
}

/// The configuration of a database that an ATTACH makes at a path, without
/// tables.
pub fn create_config(path: &str) -> (r: String)
    ensures
        r@ == "[database]\npath = \""@ + escaped(path@) + "\"\nsize_mb = 16\nmax_readers = 32\n"@,
{
    let mut s = String::from_str("[database]\npath = \"");
    push_escaped(&mut s, path);
    s.append("\"\nsize_mb = 16\nmax_readers = 32\n");
    s
}

/// The configuration of a fresh database for `ATTACH ':memory:'`, with one
/// table of one column.
pub fn ephemeral_config(path: &str) -> (r: String)
    ensures
        r@ == "[database]\npath = \""@ + escaped(path@)
            + "\"\nsize_mb = 16\nmax_readers = 32\n\n[[table]]\nname = \"attach_seed\"\nprimary_key = [\"id\"]\n\n[[table.column]]\n  name = \"id\"\n  type = \"int64\"\n"@,
{
    let mut s = String::from_str("[database]\npath = \"");
    push_escaped(&mut s, path);
    s.append(
        "\"\nsize_mb = 16\nmax_readers = 32\n\n[[table]]\nname = \"attach_seed\"\nprimary_key = [\"id\"]\n\n[[table.column]]\n  name = \"id\"\n  type = \"int64\"\n",
    );
    s
}

/// The file name of a database that goes away with its connection, from the
/// process id and a count.
pub fn ephemeral_name(temp: bool, pid: u32, seq: u64) -> (r: String)
    ensures
        r@ == (if temp { "mpedb-temp-"@ } else { "mpedb-attach-mem-"@ }) + dec(pid as nat) + "-"@ + dec(seq as nat) + ".mpedb"@,
{
    let mut s = if temp {
        String::from_str("mpedb-temp-")
    } else {
        String::from_str("mpedb-attach-mem-")
    };
    push_dec(&mut s, pid as u128);
    s.append("-");
    push_dec(&mut s, seq as u128);
    s.append(".mpedb");
    s
}

/// The files beside a database file that go away with it.
pub fn sidecars(path: &str) -> (r: (String, String))
    ensures
        r.0@ == path@ + "-wal"@,
        r.1@ == path@ + ".wlock"@,
{
    let mut a = String::from_str(path);
    a.append("-wal");
    let mut b = String::from_str(path);
    b.append(".wlock");
    (a, b)
}

// ---------------------------------------------------------------- temporary views

/// A view of one connection.
#[derive(Debug)]
pub struct TempView {
    pub name: String,
    pub select: String,
    /// The CREATE text.
    pub verbatim: String,
}

/// The temporary views of a connection.
#[derive(Debug)]
pub struct TempViews {
    views: Vec<TempView>,
}

/// The place of the view of that name from `i` on.
pub open spec fn view_at(views: Seq<TempView>, name: Seq<char>, i: int) -> Option<int>
    decreases views.len() - i,
{
    if i < 0 || i >= views.len() {
        None
    } else if views[i].name@ == name {
        Some(i)
    } else {
        view_at(views, name, i + 1)
    }
}

/// The view of a name.
pub fn find_view(views: &Vec<TempView>, name: &str) -> (r: Option<usize>)
    ensures
        match r {
            Some(i) => i < views@.len() && view_at(views@, name@, 0) == Some(i as int),
            None => view_at(views@, name@, 0) is None,
        },
{
    let mut i: usize = 0;
    while i < views.len()
        invariant
            i <= views@.len(),
            view_at(views@, name@, 0) == view_at(views@, name@, i as int),
        decreases views@.len() - i,
    {
        if same_text(views[i].name.as_str(), name) {
            return Some(i);
        }
        i += 1;
    }
    None
}

impl TempViews {
    /// The views, in the order in which they were made.
    pub closed spec fn listed(&self) -> Seq<TempView> {
        self.views@
    }

    /// The views, in the order in which they were made.
    pub fn views(&self) -> (r: &Vec<TempView>)
        ensures
            r@ == self.listed(),
    {
        &self.views
    }

    /// No two views have one name.
    pub open spec fn wf(&self) -> bool {
        forall|i: int, j: int| 0 <= i < j < self.listed().len() ==> (#[trigger] self.listed()[i]).name@ != (#[trigger] self.listed()[j]).name@
    }

    /// A connection without temporary views.
    pub fn new() -> (t: TempViews)
        ensures
            t.wf(),
            t.listed().len() == 0,
    {
        TempViews { views: Vec::new() }
    }

    /// Make a view. Tells whether there is a new one, after which no plan of
    /// the connection may be used again.
    pub fn create(&mut self, name: String, select: String, verbatim: String, if_not_exists: bool) -> (r: Result<bool>)
        requires
            old(self).wf(),
        ensures
            final(self).wf(),
            match r {
                Ok(made) => made == (view_at(old(self).listed(), name@, 0) is None) && if made {
                    final(self).listed() == old(self).listed().push((TempView { name, select, verbatim }))
                } else {
                    if_not_exists && *final(self) == *old(self)
                },
                Err(e) => {
                    &&& view_at(old(self).listed(), name@, 0) is Some
                    &&& !if_not_exists
                    &&& *final(self) == *old(self)
                    &&& e@ == Fault::Bind("view "@ + name@ + " already exists"@)
                },
            },
    {
        if find_view(&self.views, name.as_str()).is_some() {
            if if_not_exists {
                return Ok(false);
            }
            return Err(Error::Bind(quoted_in("view ", name.as_str(), " already exists")));
        }
        let ghost before = self.listed();
        let ghost label = name@;
        self.views.push(TempView { name, select, verbatim });
        proof {
            assert forall|i: int, j: int| 0 <= i < j < self.listed().len() implies (#[trigger] self.listed()[i]).name@ != (
            #[trigger] self.listed()[j]).name@ by {
                lemma_view_absent(before, label, 0, i);
            }
        }
        Ok(true)
    }

    /// Drop a view. Tells whether there was one; a name qualified with the
    /// temporary schema must be there.
    pub fn remove(&mut self, name: &str, qualified: bool) -> (r: Result<bool>)
        requires
            old(self).wf(),
        ensures
            final(self).wf(),
            match r {
                Ok(true) => {
                    &&& view_at(old(self).listed(), name@, 0) is Some
                    &&& final(self).listed() == old(self).listed().remove(view_at(old(self).listed(), name@, 0)->Some_0)
                },
                Ok(false) => view_at(old(self).listed(), name@, 0) is None && !qualified && *final(self) == *old(self),
                Err(e) => {
                    &&& view_at(old(self).listed(), name@, 0) is None
                    &&& qualified
                    &&& *final(self) == *old(self)
                    &&& e@ == Fault::Bind("no such view: temp."@ + name@)
                },
            },
    {
        match find_view(&self.views, name) {
            Some(i) => {
                self.views.remove(i);
                Ok(true)
            },
            None => {
                if qualified {
                    let mut m = String::from_str("no such view: temp.");
                    m.append(name);
                    return Err(Error::Bind(m));
                }
                Ok(false)
            },
        }
    }

    /// The text that a view's name stands for: that of the connection's own
    /// view where it has one, else that of the database's.
    pub fn source<'a>(&'a self, name: &str, main: Option<&'a String>) -> (r: Option<&'a String>)
        ensures
            match view_at(self.listed(), name@, 0) {
                Some(i) => r is Some && r->Some_0@ == self.listed()[i].select@,
                None => match main {
                    Some(s) => r is Some && r->Some_0@ == s@,
                    None => r is None,
                },
            },
    {
        match find_view(&self.views, name) {
            Some(i) => Some(&self.views[i].select),
            None => main,
        }
    }
}

proof fn lemma_view_absent(views: Seq<TempView>, name: Seq<char>, from: int, i: int)
    requires
        view_at(views, name, from) is None,
        0 <= from <= i < views.len(),
    ensures
        views[i].name@ != name,
    decreases i - from,
{
    if from < i {
        lemma_view_absent(views, name, from + 1, i);
    }
}

/// The first place from `i` on where `p` stands in `s`.
pub open spec fn occurs_at(s: Seq<char>, p: Seq<char>, i: int) -> Option<int>
    decreases s.len() - i,
{
    if i < 0 || i + p.len() > s.len() {
        None
    } else if s.subrange(i, i + p.len()) == p {
        Some(i)
    } else if i == s.len() {
        None
    } else {
        occurs_at(s, p, i + 1)
    }
}

/// The text with the first `temp.` taken out.
pub open spec fn without_qualifier(s: Seq<char>) -> Seq<char> {
    match occurs_at(s, "temp."@, 0) {
        Some(i) => s.take(i) + s.skip(i + 5),
        None => s,
    }
}

/// The CREATE text of a temporary view, from the statement rewritten to name
/// the temporary schema: the view goes to no schema, so the qualifier comes
/// off again.
pub fn verbatim_view(rewritten: &str) -> (r: String)
    ensures
        r@ == without_qualifier(rewritten@),
{
    let cs = chars_of(rewritten);
    let n: usize = cs.len();
    proof {
        reveal_strlit("temp.");
    }
    let mut i: usize = 0;
    while i < n && n - i >= 5
        invariant
            i <= n,
            n == cs@.len(),
            cs@ == rewritten@,
            "temp."@ =~= seq!['t', 'e', 'm', 'p', '.'],
            occurs_at(rewritten@, "temp."@, 0) == occurs_at(rewritten@, "temp."@, i as int),
        decreases n - i,
    {
        let ghost here = rewritten@.subrange(i as int, i + 5);
        if cs[i] == 't' && cs[i + 1] == 'e' && cs[i + 2] == 'm' && cs[i + 3] == 'p' && cs[i + 4] == '.' {
            assert(here =~= "temp."@);
            let mut s = String::from_str(rewritten.substring_char(0, i));
            s.append(rewritten.substring_char(i + 5, n));
            proof {
                assert(rewritten@.subrange(0, i as int) =~= rewritten@.take(i as int));
                assert(rewritten@.subrange(i + 5, n as int) =~= rewritten@.skip(i + 5));
            }
            return s;
        }
        proof {
            if here == "temp."@ {
                assert(here[0] == 't' && here[1] == 'e' && here[2] == 'm' && here[3] == 'p' && here[4] == '.');
            }
        }
        i += 1;
    }
    rewritten.to_owned()
}

/// The first dot from `i` on.
pub open spec fn first_dot(s: Seq<char>, i: int) -> Option<int>
    decreases s.len() - i,
{
    if i < 0 || i >= s.len() {
        None
    } else if s[i] == '.' {
        Some(i)
    } else {
        first_dot(s, i + 1)
    }
}

/// The last white space before `n`.
pub open spec fn last_space(s: Seq<char>, n: int) -> Option<int>
    decreases n,
{
    if n <= 0 || n > s.len() {
        None
    } else if white_space(s[n - 1]) {
        Some(n - 1)
    } else {
        last_space(s, n - 1)
    }
}

/// The statement without the qualifier, if the word before its first dot is
/// `temp`.
pub open spec fn stripped(s: Seq<char>) -> Option<Seq<char>> {
    match first_dot(s, 0) {
        None => None,
        Some(dot) => match last_space(s, dot) {
            None => None,
            Some(sp) => if same_folded(s.subrange(sp + 1, dot), "temp"@) {
                Some(s.take(sp + 1) + s.skip(dot + 1))
            } else {
                None
            },
        },
    }
}

/// Take a `temp.` qualifier off the object name of a statement.
pub fn strip_temp_qualifier(sql: &str) -> (r: Option<String>)
    ensures
        match r {
            Some(s) => stripped(sql@) == Some(s@),
            None => stripped(sql@) is None,
        },
{
    let cs = chars_of(sql);
    let n: usize = cs.len();
    let mut dot: usize = 0;
    while dot < n && cs[dot] != '.'
        invariant
            dot <= n,
            n == cs@.len(),
            cs@ == sql@,
            first_dot(sql@, 0) == first_dot(sql@, dot as int),
        decreases n - dot,
    {
        dot += 1;
    }
    if dot == n {
        return None;
    }
    let mut start: usize = dot;
    while start > 0 && !is_white_space(cs[start - 1])
        invariant
            start <= dot < n,
            n == cs@.len(),
            cs@ == sql@,
            last_space(sql@, dot as int) == last_space(sql@, start as int),
        decreases start,
    {
        start -= 1;
    }
    if start == 0 {
        return None;
    }
    proof {
        assert(last_space(sql@, dot as int) == Some(start - 1));
    }
    if same_text_folded(sql.substring_char(start, dot), "temp") {
        let mut s = String::from_str(sql.substring_char(0, start));
        s.append(sql.substring_char(dot + 1, n));
        proof {
            assert(sql@.subrange(0, start as int) =~= sql@.take(start as int));
            assert(sql@.subrange(dot + 1, n as int) =~= sql@.skip(dot + 1));
        }
        Some(s)
    } else {
        None
    }
}

// ---------------------------------------------------------------- laws

proof fn lemma_member_first(members: Seq<Attached>, name: Seq<char>, from: int, i: int)
    requires
        0 <= from <= i < members.len(),
        same_folded(members[i].name@, name),
        forall|j: int| from <= j < i ==> !same_folded((#[trigger] members[j]).name@, name),
    ensures
        member_at(members, name, from) == Some(i),
    decreases i - from,
{
    if from < i {
        lemma_member_first(members, name, from + 1, i);
    }
}

/// An attached database is found under its name, and every other one where
/// it was.
pub proof fn law_attach_then_find(list: AttachList, m: Attached, other: Seq<char>)
    requires
        list.wf(),
        member_at(list.attached(), m.name@, 0) is None,
    ensures
        member_at(list.attached().push(m), m.name@, 0) == Some(list.attached().len() as int),
        member_at(list.attached(), other, 0) is Some ==> member_at(list.attached().push(m), other, 0) == member_at(list.attached(), other, 0),
{
    let n = list.attached().len() as int;
    let more = list.attached().push(m);
    assert forall|j: int| 0 <= j < n implies !same_folded((#[trigger] more[j]).name@, m.name@) by {
        lemma_absent(list.attached(), m.name@, 0, j);
    }
    assert(same_folded(m.name@, m.name@));
    lemma_member_first(more, m.name@, 0, n);
    if let Some(i) = member_at(list.attached(), other, 0) {
        lemma_member_found(list.attached(), other, 0);
        assert forall|j: int| 0 <= j < i implies !same_folded((#[trigger] more[j]).name@, other) by {
            assert(more[j] == list.attached()[j]);
        }
        assert(more[i] == list.attached()[i]);
        lemma_member_first(more, other, 0, i);
    }
}

proof fn lemma_member_found(members: Seq<Attached>, name: Seq<char>, from: int)
    requires
        0 <= from,
    ensures
        member_at(members, name, from) matches Some(i) ==> {
            &&& from <= i < members.len()
            &&& same_folded(members[i].name@, name)
            &&& forall|j: int| from <= j < i ==> !same_folded((#[trigger] members[j]).name@, name)
        },
    decreases members.len() - from,
{
    if from < members.len() && !same_folded(members[from].name@, name) {
        lemma_member_found(members, name, from + 1);
    }
}

/// A detached database is no longer found, and every other one still is.
pub proof fn law_detach_keeps_others(list: AttachList, i: int, k: int)
    requires
        list.wf(),
        0 <= i < list.attached().len(),
        0 <= k < list.attached().len(),
        k != i,
    ensures
        member_at(list.attached().remove(i), list.attached()[i].name@, 0) is None,
        member_at(list.attached().remove(i), list.attached()[k].name@, 0) == Some(if k < i { k } else { k - 1 }),
{
    let ms = list.attached();
    let less = ms.remove(i);
    if let Some(j) = member_at(less, ms[i].name@, 0) {
        lemma_member_found(less, ms[i].name@, 0);
        let from = if j < i { j } else { j + 1 };
        assert(less[j] == ms[from]);
        assert(same_folded(ms[from].name@, ms[i].name@));
        assert(same_folded(ms[i].name@, ms[from].name@));
    }
    let at = if k < i { k } else { k - 1 };
    assert(less[at] == ms[k]);
    assert(same_folded(ms[k].name@, ms[k].name@));
    assert forall|j: int| 0 <= j < at implies !same_folded((#[trigger] less[j]).name@, ms[k].name@) by {
        let from = if j < i { j } else { j + 1 };
        assert(less[j] == ms[from]);
    }
    lemma_member_first(less, ms[k].name@, 0, at);
}

/// A temporary view shadows the database's view of its name.
pub proof fn law_temp_view_shadows(views: Seq<TempView>, v: TempView)
    requires
        view_at(views, v.name@, 0) is None,
    ensures
        view_at(views.push(v), v.name@, 0) == Some(views.len() as int),
{
    lemma_view_pushed(views, v, 0);
}

proof fn lemma_view_pushed(views: Seq<TempView>, v: TempView, from: int)
    requires
        0 <= from <= views.len(),
        view_at(views, v.name@, from) is None,
    ensures
        view_at(views.push(v), v.name@, from) == Some(views.len() as int),
    decreases views.len() - from,
{
    if from < views.len() {
        lemma_view_pushed(views, v, from + 1);
    }
}

/// Dropping a view that was just made brings the earlier views back.
pub proof fn law_view_drop_undoes_create(views: Seq<TempView>, v: TempView)
    requires
        view_at(views, v.name@, 0) is None,
    ensures
        view_at(views.push(v), v.name@, 0) is Some,
        views.push(v).remove(view_at(views.push(v), v.name@, 0)->Some_0) == views,
{
    lemma_view_pushed(views, v, 0);
    assert(views.push(v).remove(views.len() as int) =~= views);
}

/// A name finds the attached database that bears it, up to case, and finds one
/// wherever one does.
pub proof fn law_member_found(members: Seq<Attached>, name: Seq<char>, from: int)
    requires
        0 <= from <= members.len(),
    ensures
        match member_at(members, name, from) {
            Some(i) => from <= i < members.len() && same_folded(members[i].name@, name) && forall|j: int|
                from <= j < i ==> !same_folded((#[trigger] members[j]).name@, name),
            None => forall|j: int| from <= j < members.len() ==> !same_folded((#[trigger] members[j]).name@, name),
        },
    decreases members.len() - from,
{
    if from < members.len() {
        law_member_found(members, name, from + 1);
    }
}

/// A database may be attached exactly where its name is free and can be told
/// from a table's, its file is named by a path, and there is room.
pub proof fn law_attach_needs_a_free_name(list: AttachList, path: Seq<char>, name: Seq<char>)
    ensures
        attach_fault(list, path, name) is None <==> {
            &&& name.len() > 0 && !name.contains('.')
            &&& !same_folded(name, "main"@) && !same_folded(name, "temp"@)
            &&& forall|i: int| 0 <= i < list.attached().len() ==> !same_folded((#[trigger] list.attached()[i]).name@, name)
            &&& path == "file::memory:"@ || !(path.len() >= 5 && path.subrange(0, 5) == "file:"@)
            &&& user_members(list.attached(), list.attached().len()) < 10
        },
{
    law_member_found(list.attached(), name, 0);
    reveal_strlit("file:");
    if path.len() >= 5 {
        assert(path.subrange(0, 5) =~= path.take(5));
    }
}

/// Only what the user attached counts against the limit: the database of
/// temporary things does not.
pub proof fn law_temp_does_not_count(members: Seq<Attached>, m: Attached)
    ensures
        user_members(members.push(m), members.len() + 1) == user_members(members, members.len()) + (if same_folded(m.name@, "temp"@) {
            0int
        } else {
            1int
        }),
{
    lemma_same_prefix(members, m, members.len());
}

proof fn lemma_same_prefix(members: Seq<Attached>, m: Attached, n: nat)
    requires
        n <= members.len(),
    ensures
        user_members(members.push(m), n) == user_members(members, n),
    decreases n,
{
    if n > 0 {
        lemma_same_prefix(members, m, (n - 1) as nat);
        assert(members.push(m)[n - 1] == members[n - 1]);
    }
}

/// A view of the connection is found by its exact name.
pub proof fn law_view_found(views: Seq<TempView>, name: Seq<char>, from: int)
    requires
        0 <= from <= views.len(),
    ensures
        match view_at(views, name, from) {
            Some(i) => from <= i < views.len() && views[i].name@ == name && forall|j: int| from <= j < i ==> (#[trigger] views[j]).name@ != name,
            None => forall|j: int| from <= j < views.len() ==> (#[trigger] views[j]).name@ != name,
        },
    decreases views.len() - from,
{
    if from < views.len() {
        law_view_found(views, name, from + 1);
    }
}

/// What a quoted text of a configuration says, from `i` on: a backslash stands
/// for the character behind it, and a bare quote would end it.
pub open spec fn quoted_text(t: Seq<char>, i: int) -> Option<Seq<char>>
    decreases t.len() - i,
{
    if i < 0 || i >= t.len() {
        Some(Seq::empty())
    } else if t[i] == '"' {
        None
    } else if t[i] == '\\' {
        if i + 1 >= t.len() {
            None
        } else {
            match quoted_text(t, i + 2) {
                Some(rest) => Some(seq![t[i + 1]] + rest),
                None => None,
            }
        }
    } else {
        match quoted_text(t, i + 1) {
            Some(rest) => Some(seq![t[i]] + rest),
            None => None,
        }
    }
}

proof fn lemma_escaped_one(c: char)
    ensures
        escaped(seq![c]) == (if c == '\\' { seq!['\\', '\\'] } else if c == '"' { seq!['\\', '"'] } else { seq![c] }),
{
    reveal_strlit("\\\\");
    reveal_strlit("\\\"");
    reveal_with_fuel(escaped, 2);
    assert(seq![c].drop_last() =~= Seq::<char>::empty());
    assert("\\\\"@ =~= seq!['\\', '\\']);
    assert("\\\""@ =~= seq!['\\', '"']);
    assert(escaped(seq![c]) =~= (if c == '\\' { seq!['\\', '\\'] } else if c == '"' { seq!['\\', '"'] } else { seq![c] }));
}

proof fn lemma_escaped_join(a: Seq<char>, b: Seq<char>)
    ensures
        escaped(a + b) == escaped(a) + escaped(b),
    decreases b.len(),
{
    if b.len() == 0 {
        assert(a + b =~= a);
        assert(escaped(a) + escaped(b) =~= escaped(a));
    } else {
        assert((a + b).drop_last() =~= a + b.drop_last());
        lemma_escaped_join(a, b.drop_last());
        assert(escaped(a + b) =~= escaped(a) + escaped(b));
    }
}

proof fn lemma_quoted_skip(t: Seq<char>, i: int)
    requires
        0 <= i <= t.len(),
    ensures
        quoted_text(t, i) == quoted_text(t.skip(i), 0),
    decreases t.len() - i,
{
    let s = t.skip(i);
    if i < t.len() {
        assert(s[0] == t[i]);
        if t[i] == '\\' {
            if i + 1 < t.len() {
                assert(s[1] == t[i + 1]);
                lemma_quoted_skip(t, i + 2);
                lemma_quoted_skip(s, 2);
                assert(s.skip(2) =~= t.skip(i + 2));
            }
        } else if t[i] != '"' {
            lemma_quoted_skip(t, i + 1);
            lemma_quoted_skip(s, 1);
            assert(s.skip(1) =~= t.skip(i + 1));
        }
    }
}

/// A path goes into a configuration whole: between quotes, its escaped form
/// says that path and nothing else, whatever characters it has.
pub proof fn law_escaped_path_says_the_path(path: Seq<char>)
    ensures
        quoted_text(escaped(path), 0) == Some(path),
    decreases path.len(),
{
    if path.len() > 0 {
        let (c, rest) = (path[0], path.drop_first());
        law_escaped_path_says_the_path(rest);
        assert(path =~= seq![c] + rest);
        lemma_escaped_join(seq![c], rest);
        lemma_escaped_one(c);
        let t = escaped(path);
        let one = escaped(seq![c]);
        assert(t == one + escaped(rest));
        assert(t.skip(one.len() as int) =~= escaped(rest));
        lemma_quoted_skip(t, one.len() as int);
        assert(t[0] == one[0]);
        if one.len() == 2 {
            assert(t[1] == one[1]);
        }
        assert(seq![c] + rest =~= path);
    } else {
        assert(path =~= Seq::empty());
    }
}

/// The first `temp.` of a statement goes, and nothing else changes.
pub proof fn law_first_qualifier_goes(a: Seq<char>, b: Seq<char>)
    requires
        forall|i: int| 0 <= i < a.len() ==> #[trigger] (a + "temp."@ + b).subrange(i, i + 5) != "temp."@,
    ensures
        without_qualifier(a + "temp."@ + b) == a + b,
{
    reveal_strlit("temp.");
    let s = a + "temp."@ + b;
    let n = a.len() as int;
    assert(s.subrange(n, n + 5) =~= "temp."@);
    lemma_occurs(s, "temp."@, n, 0);
    assert(s.take(n) =~= a);
    assert(s.skip(n + 5) =~= b);
}

proof fn lemma_occurs(s: Seq<char>, p: Seq<char>, n: int, i: int)
    requires
        p.len() == 5,
        0 <= i <= n,
        n + 5 <= s.len(),
        s.subrange(n, n + 5) == p,
        forall|j: int| 0 <= j < n ==> #[trigger] s.subrange(j, j + 5) != p,
    ensures
        occurs_at(s, p, i) == Some(n),
    decreases n - i,
{
    if i < n {
        assert(s.subrange(i, i + 5) != p);
        lemma_occurs(s, p, n, i + 1);
    }
}

proof fn lemma_first_dot(s: Seq<char>, n: int, i: int)
    requires
        0 <= i <= n < s.len(),
        s[n] == '.',
        forall|j: int| 0 <= j < n ==> #[trigger] s[j] != '.',
    ensures
        first_dot(s, i) == Some(n),
    decreases n - i,
{
    if i < n {
        lemma_first_dot(s, n, i + 1);
    }
}

proof fn lemma_last_space(s: Seq<char>, at: int, n: int)
    requires
        0 <= at < n <= s.len(),
        white_space(s[at]),
        forall|j: int| at < j < n ==> !white_space(#[trigger] s[j]),
    ensures
        last_space(s, n) == Some(at),
    decreases n - at,
{
    if at < n - 1 {
        lemma_last_space(s, at, n - 1);
    }
}

/// A name that is qualified as temporary loses the qualifier, in whatever case
/// it is written, and nothing else of the statement changes; a statement
/// without a qualified name has none to lose.
pub proof fn law_temporary_qualifier_is_stripped(head: Seq<char>, space: char, word: Seq<char>, tail: Seq<char>)
    requires
        white_space(space),
        space != '.',
        forall|i: int| 0 <= i < head.len() ==> #[trigger] head[i] != '.',
        forall|i: int| 0 <= i < word.len() ==> #[trigger] word[i] != '.' && !white_space(word[i]),
    ensures
        stripped(head.push(space) + word + seq!['.'] + tail) == (if same_folded(word, "temp"@) { Some(head.push(space) + tail) } else { None }),
{
    let s = head.push(space) + word + seq!['.'] + tail;
    let (sp, dot) = (head.len() as int, head.len() + 1 + word.len());
    assert forall|j: int| 0 <= j < dot implies #[trigger] s[j] != '.' by {
        if j < sp {
            assert(s[j] == head[j]);
        } else if j > sp {
            assert(s[j] == word[j - sp - 1]);
        }
    }
    assert(s[dot as int] == '.');
    lemma_first_dot(s, dot as int, 0);
    assert forall|j: int| sp < j < dot implies !white_space(#[trigger] s[j]) by {
        assert(s[j] == word[j - sp - 1]);
    }
    assert(s[sp] == space);
    lemma_last_space(s, sp, dot as int);
    assert(s.subrange(sp + 1, dot as int) =~= word);
    assert(s.take(sp + 1) =~= head.push(space));
    assert(s.skip(dot as int + 1) =~= tail);
}

} // verus!
