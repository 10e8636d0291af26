//! The repository's architecture gates: the dependency matrix, the pure layer, and the
//! disjointness of binary and library names, each judged over what the workspace's
//! manifests declare.

use vstd::prelude::*;

use crate::manifest::{bin_names_text, declared_bin_names, declared_views, Declared};
use crate::text::{
    chars_are, chars_equal, chars_of, chars_start_with, push_chars, push_text, starts_with,
    string_from_chars,
};

verus! {

// ---------------------------------------------------------------------------------------
// The dependency matrix
// ---------------------------------------------------------------------------------------

/// Which workspace crates each crate may reach, directly or through anything it names;
/// rows in workspace order.
pub open spec fn allowed_rows() -> Seq<(Seq<char>, Seq<Seq<char>>)> {
    seq![
        ("ccidkit"@, Seq::empty()),
        ("ccid-cli"@, seq!["ccidkit"@]),
        ("ccid-driverkit"@, seq!["ccidkit"@]),
        ("xtask"@, Seq::empty()),
    ]
}

/// The crates that declare no normal dependency.
pub open spec fn zero_dep_crates() -> Seq<Seq<char>> {
    seq!["xtask"@]
}

/// The crates that may be named only from a dev-dependency table.
pub open spec fn dev_only_crates() -> Seq<Seq<char>> {
    Seq::empty()
}

/// One row of the matrix.
pub struct MatrixRow {
    pub krate: &'static str,
    pub allowed: Vec<&'static str>,
}

/// The views of a list of names.
pub open spec fn name_views(names: Seq<&'static str>) -> Seq<Seq<char>> {
    names.map_values(|s: &'static str| s@)
}

/// The views of the matrix.
pub open spec fn row_views(rows: Seq<MatrixRow>) -> Seq<(Seq<char>, Seq<Seq<char>>)> {
    rows.map_values(|r: MatrixRow| (r.krate@, name_views(r.allowed@)))
}

/// The dependency matrix.
pub fn allowed() -> (rows: Vec<MatrixRow>)
    ensures
        row_views(rows@) == allowed_rows(),
{
    let rows = vec![
        MatrixRow { krate: "ccidkit", allowed: Vec::new() },
        MatrixRow { krate: "ccid-cli", allowed: vec!["ccidkit"] },
        MatrixRow { krate: "ccid-driverkit", allowed: vec!["ccidkit"] },
        MatrixRow { krate: "xtask", allowed: Vec::new() },
    ];
    assert(name_views(rows@[0].allowed@) =~= Seq::<Seq<char>>::empty());
    assert(name_views(rows@[1].allowed@) =~= seq!["ccidkit"@]);
    assert(name_views(rows@[2].allowed@) =~= seq!["ccidkit"@]);
    assert(name_views(rows@[3].allowed@) =~= Seq::<Seq<char>>::empty());
    assert(row_views(rows@) =~= allowed_rows());
    rows
}

/// The crates on the tooling charter.
pub fn zero_dep() -> (names: Vec<&'static str>)
    ensures
        name_views(names@) == zero_dep_crates(),
{
    let names = vec!["xtask"];
    assert(name_views(names@) =~= zero_dep_crates());
    names
}

/// The crates that are dev-only.
pub fn dev_only() -> (names: Vec<&'static str>)
    ensures
        name_views(names@) == dev_only_crates(),
{
    let names: Vec<&'static str> = Vec::new();
    assert(name_views(names@) =~= dev_only_crates());
    names
}

/// The row of a crate: the first with its name.
pub open spec fn row_of(rows: Seq<(Seq<char>, Seq<Seq<char>>)>, name: Seq<char>) -> Option<
    Seq<Seq<char>>,
>
    decreases rows.len(),
{
    if rows.len() == 0 {
        None
    } else if rows[0].0 == name {
        Some(rows[0].1)
    } else {
        row_of(rows.drop_first(), name)
    }
}

/// Whether `from` may reach `to`, directly or through anything it may name.
pub open spec fn reaches_spec(from: Seq<char>, to: Seq<char>) -> bool {
    match row_of(allowed_rows(), from) {
        Some(row) => row.contains(to),
        None => false,
    }
}

fn names_contain(names: &Vec<&'static str>, name: &[char]) -> (found: bool)
    ensures
        found == name_views(names@).contains(name@),
{
    let mut index: usize = 0;
    while index < names.len()
        invariant
            index <= names@.len(),
            forall|k: int| 0 <= k < index ==> names@[k]@ != name@,
        decreases names@.len() - index,
    {
        if chars_are(name, names[index]) {
            assert(name_views(names@)[index as int] == name@);
            return true;
        }
        index = index + 1;
    }
    proof {
        if name_views(names@).contains(name@) {
            let k = choose|k: int| 0 <= k < name_views(names@).len() && name_views(names@)[k] == name@;
            assert(names@[k]@ == name@);
        }
    }
    false
}

fn find_row(rows: &Vec<MatrixRow>, name: &[char]) -> (row: Option<usize>)
    ensures
        match row_of(row_views(rows@), name@) {
            Some(allowed) => row matches Some(i) && i < rows@.len() && name_views(
                rows@[i as int].allowed@,
            ) == allowed,
            None => row is None,
        },
{
    let ghost views = row_views(rows@);
    let mut index: usize = 0;
    assert(views.subrange(0, views.len() as int) =~= views);
    while index < rows.len()
        invariant
            views == row_views(rows@),
            index <= rows@.len(),
            row_of(views, name@) == row_of(views.subrange(index as int, views.len() as int), name@),
        decreases rows@.len() - index,
    {
        let ghost rest = views.subrange(index as int, views.len() as int);
        assert(rest[0] == views[index as int]);
        if chars_are(name, rows[index].krate) {
            return Some(index);
        }
        assert(rest.drop_first() =~= views.subrange(index as int + 1, views.len() as int));
        index = index + 1;
    }
    None
}

/// Whether `from` may reach `to`, directly or through anything it may name: one lookup,
/// because the matrix is transitively closed.
pub fn reaches(from: &str, to: &str) -> (reached: bool)
    ensures
        reached == reaches_spec(from@, to@),
{
    let rows = allowed();
    let from_chars = chars_of(from);
    let to_chars = chars_of(to);
    match find_row(&rows, from_chars.as_slice()) {
        Some(i) => names_contain(&rows[i].allowed, to_chars.as_slice()),
        None => false,
    }
}

proof fn lemma_rows(name: Seq<char>)
    ensures
        row_of(allowed_rows(), name) == if name == "ccidkit"@ {
            Some(Seq::<Seq<char>>::empty())
        } else if name == "ccid-cli"@ {
            Some(seq!["ccidkit"@])
        } else if name == "ccid-driverkit"@ {
            Some(seq!["ccidkit"@])
        } else if name == "xtask"@ {
            Some(Seq::<Seq<char>>::empty())
        } else {
            None
        },
{
    reveal_strlit("ccidkit");
    reveal_strlit("ccid-cli");
    reveal_strlit("ccid-driverkit");
    reveal_strlit("xtask");
    let r0 = allowed_rows();
    let r1 = r0.drop_first();
    let r2 = r1.drop_first();
    let r3 = r2.drop_first();
    let r4 = r3.drop_first();
    assert(r1 =~= seq![
        ("ccid-cli"@, seq!["ccidkit"@]),
        ("ccid-driverkit"@, seq!["ccidkit"@]),
        ("xtask"@, Seq::<Seq<char>>::empty()),
    ]);
    assert(r2 =~= seq![("ccid-driverkit"@, seq!["ccidkit"@]), ("xtask"@, Seq::<Seq<char>>::empty())]);
    assert(r3 =~= seq![("xtask"@, Seq::<Seq<char>>::empty())]);
    assert(r4.len() == 0);
    assert(row_of(r4, name) is None);
    assert(row_of(r3, name) == if name == "xtask"@ {
        Some(Seq::<Seq<char>>::empty())
    } else {
        None
    });
    assert(row_of(r2, name) == if name == "ccid-driverkit"@ {
        Some(seq!["ccidkit"@])
    } else {
        row_of(r3, name)
    });
    assert(row_of(r1, name) == if name == "ccid-cli"@ {
        Some(seq!["ccidkit"@])
    } else {
        row_of(r2, name)
    });
    assert(row_of(r0, name) == if name == "ccidkit"@ {
        Some(Seq::<Seq<char>>::empty())
    } else {
        row_of(r1, name)
    });
}

/// If a crate may name another, it may name everything that one may: the matrix is
/// transitively closed, which is what lets one lookup answer reachability.
pub proof fn the_matrix_is_transitively_closed(krate: Seq<char>, dep: Seq<char>, transitive: Seq<char>)
    requires
        reaches_spec(krate, dep),
        reaches_spec(dep, transitive),
    ensures
        reaches_spec(krate, transitive),
{
    reveal_strlit("ccidkit");
    reveal_strlit("ccid-cli");
    reveal_strlit("ccid-driverkit");
    reveal_strlit("xtask");
    lemma_rows(krate);
    lemma_rows(dep);
    lemma_rows(transitive);
    if krate == "ccid-cli"@ || krate == "ccid-driverkit"@ {
        assert(seq!["ccidkit"@].contains(dep));
        assert(dep == "ccidkit"@);
    }
}

/// Every crate named in a row has a row of its own.
pub proof fn every_named_crate_has_a_row(krate: Seq<char>, dep: Seq<char>)
    requires
        reaches_spec(krate, dep),
    ensures
        row_of(allowed_rows(), dep) is Some,
{
    reveal_strlit("ccidkit");
    lemma_rows(krate);
    lemma_rows(dep);
    assert(seq!["ccidkit"@].contains(dep) ==> dep == "ccidkit"@);
}

/// No crate may name itself.
pub proof fn no_crate_may_name_itself(krate: Seq<char>)
    ensures
        !reaches_spec(krate, krate),
{
    reveal_strlit("ccidkit");
    reveal_strlit("ccid-cli");
    reveal_strlit("ccid-driverkit");
    lemma_rows(krate);
    assert(seq!["ccidkit"@].contains(krate) ==> krate == "ccidkit"@);
}

/// A crate on the tooling charter has a row, and the row is empty.
pub proof fn every_charter_crate_has_an_empty_row(krate: Seq<char>)
    requires
        zero_dep_crates().contains(krate),
    ensures
        row_of(allowed_rows(), krate) == Some(Seq::<Seq<char>>::empty()),
{
    reveal_strlit("ccidkit");
    reveal_strlit("ccid-cli");
    reveal_strlit("ccid-driverkit");
    reveal_strlit("xtask");
    assert(zero_dep_crates()[0] == "xtask"@);
    assert(krate == "xtask"@);
    lemma_rows(krate);
}

/// No row carries an arrow to a dev-only crate.
pub proof fn nothing_reaches_a_dev_only_crate(from: Seq<char>)
    ensures
        forall|krate: Seq<char>| dev_only_crates().contains(krate) ==> !reaches_spec(from, krate),
{
}

// ---------------------------------------------------------------------------------------
// The dependency gate
// ---------------------------------------------------------------------------------------

/// One workspace member with the dependencies its manifest declares, ascending.
pub struct MemberDependencies {
    pub name: String,
    pub declared: Vec<Declared>,
}

/// What a member with its dependencies holds.
pub struct MemberDependenciesView {
    pub name: Seq<char>,
    pub declared: Seq<(bool, Seq<char>)>,
}

impl View for MemberDependencies {
    type V = MemberDependenciesView;

    open spec fn view(&self) -> MemberDependenciesView {
        MemberDependenciesView { name: self.name@, declared: declared_views(self.declared@) }
    }
}

/// The views of members.
pub open spec fn member_views(members: Seq<MemberDependencies>) -> Seq<MemberDependenciesView> {
    members.map_values(|m: MemberDependencies| m@)
}

/// Whether a name is a workspace member's.
pub open spec fn is_member(members: Seq<MemberDependenciesView>, name: Seq<char>) -> bool {
    exists|i: int| 0 <= i < members.len() && #[trigger] members[i].name == name
}

/// The findings for members without a row, in member order.
pub open spec fn rowless_members(members: Seq<MemberDependenciesView>) -> Seq<Seq<char>>
    decreases members.len(),
{
    if members.len() == 0 {
        Seq::empty()
    } else {
        rowless_members(members.drop_last()) + if row_of(allowed_rows(), members.last().name)
            is None {
            seq![
                members.last().name
                    + ": workspace member has no row in xtask/src/deps.rs ALLOWED \u{2014} add one so the one rule reaches it"@,
            ]
        } else {
            Seq::<Seq<char>>::empty()
        }
    }
}

/// The findings for rows that name no member, in row order.
pub open spec fn stale_rows(members: Seq<MemberDependenciesView>, rows: Seq<(Seq<char>, Seq<Seq<char>>)>) -> Seq<
    Seq<char>,
>
    decreases rows.len(),
{
    if rows.len() == 0 {
        Seq::empty()
    } else {
        stale_rows(members, rows.drop_last()) + if !is_member(members, rows.last().0) {
            seq![
                rows.last().0
                    + ": has an ALLOWED row but is not a workspace member; the matrix in xtask/src/deps.rs has gone stale"@,
            ]
        } else {
            Seq::<Seq<char>>::empty()
        }
    }
}

/// The finding, if any, for one declaration of a member with a row.
pub open spec fn declaration_finding(
    members: Seq<MemberDependenciesView>,
    name: Seq<char>,
    row: Seq<Seq<char>>,
    on_charter: bool,
    declared: (bool, Seq<char>),
) -> Seq<Seq<char>> {
    let (dev, dep) = declared;
    if on_charter && !dev {
        seq![
            name + ": declares `"@ + dep
                + "`; this crate's dependency-freedom is architecture (docs/adr/0016)"@,
        ]
    } else if !is_member(members, dep) {
        Seq::empty()
    } else if dev_only_crates().contains(dep) && !dev {
        seq![
            name + ": names `"@ + dep
                + "` as a normal dependency; it is dev-only and must reach no shipped artifact"@,
        ]
    } else if dev {
        if reaches_spec(dep, name) {
            seq![
                name + ": dev-dependency `"@ + dep
                    + "` closes a cycle \u{2014} this crate is below the one it is testing with"@,
            ]
        } else {
            Seq::empty()
        }
    } else if !row.contains(dep) {
        seq![
            name + ": normal dependency `"@ + dep
                + "` is not an arrow the ALLOWED matrix carries (ARCHITECTURE.md)"@,
        ]
    } else {
        Seq::empty()
    }
}

/// The findings for the declarations of one member, in declaration order.
pub open spec fn declaration_findings(
    members: Seq<MemberDependenciesView>,
    name: Seq<char>,
    row: Seq<Seq<char>>,
    on_charter: bool,
    declared: Seq<(bool, Seq<char>)>,
) -> Seq<Seq<char>>
    decreases declared.len(),
{
    if declared.len() == 0 {
        Seq::empty()
    } else {
        declaration_findings(members, name, row, on_charter, declared.drop_last())
            + declaration_finding(members, name, row, on_charter, declared.last())
    }
}

/// The findings for the members with rows, in member order.
pub open spec fn edge_findings(members: Seq<MemberDependenciesView>, upto: int) -> Seq<Seq<char>>
    decreases upto,
{
    if upto <= 0 || upto > members.len() {
        Seq::empty()
    } else {
        let m = members[upto - 1];
        edge_findings(members, upto - 1) + match row_of(allowed_rows(), m.name) {
            Some(row) => declaration_findings(
                members,
                m.name,
                row,
                zero_dep_crates().contains(m.name),
                m.declared,
            ),
            None => Seq::empty(),
        }
    }
}

/// Every finding of the dependency gate: members without rows, rows without members, then
/// each member's edges against the rules (a charter crate declares no normal dependency;
/// a dev-only crate is named only as a dev-dependency; a dev-dependency closes no cycle;
/// a normal edge between members is an arrow of the matrix).
pub open spec fn dependency_findings(members: Seq<MemberDependenciesView>) -> Seq<Seq<char>> {
    rowless_members(members) + stale_rows(members, allowed_rows()) + edge_findings(
        members,
        members.len() as int,
    )
}

/// The views of strings.
pub open spec fn string_views(strings: Seq<String>) -> Seq<Seq<char>> {
    strings.map_values(|s: String| s@)
}

fn push_string(out: &mut Vec<String>, message: String)
    ensures
        string_views(final(out)@) == string_views(old(out)@).push(message@),
{
    let ghost before = out@;
    out.push(message);
    assert(string_views(out@) =~= string_views(before).push(message@));
}

fn compose(first: &[char], middle: &str, item: &[char], last: &str) -> (text: String)
    ensures
        text@ == first@ + middle@ + item@ + last@,
{
    let mut out: Vec<char> = Vec::new();
    push_chars(&mut out, first);
    push_text(&mut out, middle);
    push_chars(&mut out, item);
    push_text(&mut out, last);
    assert(out@ =~= first@ + middle@ + item@ + last@);
    string_from_chars(out.as_slice())
}

fn is_member_name(members: &[MemberDependencies], name: &[char]) -> (found: bool)
    ensures
        found == is_member(member_views(members@), name@),
{
    let ghost views = member_views(members@);
    let mut index: usize = 0;
    while index < members.len()
        invariant
            views == member_views(members@),
            index <= members@.len(),
            forall|k: int| 0 <= k < index ==> views[k].name != name@,
        decreases members@.len() - index,
    {
        assert(views[index as int] == members@[index as int]@);
        let member_name = chars_of(members[index].name.as_str());
        if chars_equal(member_name.as_slice(), name) {
            assert(views[index as int].name == name@);
            return true;
        }
        index = index + 1;
    }
    false
}

fn declaration_check(
    members: &[MemberDependencies],
    name: &[char],
    row: &Vec<&'static str>,
    on_charter: bool,
    declared: &Declared,
    out: &mut Vec<String>,
)
    ensures
        string_views(final(out)@) == string_views(old(out)@) + declaration_finding(
            member_views(members@),
            name@,
            name_views(row@),
            on_charter,
            declared@,
        ),
{
    let ghost start = string_views(out@);
    let dep = chars_of(declared.name.as_str());
    let dev = declared.dev;
    if on_charter && !dev {
        let message = compose(
            name,
            ": declares `",
            dep.as_slice(),
            "`; this crate's dependency-freedom is architecture (docs/adr/0016)",
        );
        push_string(out, message);
        return ;
    }
    if !is_member_name(members, dep.as_slice()) {
        assert(string_views(out@) =~= start + Seq::<Seq<char>>::empty());
        return ;
    }
    let dev_only_names = dev_only();
    if names_contain(&dev_only_names, dep.as_slice()) && !dev {
        let message = compose(
            name,
            ": names `",
            dep.as_slice(),
            "` as a normal dependency; it is dev-only and must reach no shipped artifact",
        );
        push_string(out, message);
        return ;
    }
    if dev {
        let dep_text = string_from_chars(dep.as_slice());
        let name_text = string_from_chars(name);
        if reaches(dep_text.as_str(), name_text.as_str()) {
            let message = compose(
                name,
                ": dev-dependency `",
                dep.as_slice(),
                "` closes a cycle \u{2014} this crate is below the one it is testing with",
            );
            push_string(out, message);
        } else {
            assert(string_views(out@) =~= start + Seq::<Seq<char>>::empty());
        }
        return ;
    }
    if !names_contain(row, dep.as_slice()) {
        let message = compose(
            name,
            ": normal dependency `",
            dep.as_slice(),
            "` is not an arrow the ALLOWED matrix carries (ARCHITECTURE.md)",
        );
        push_string(out, message);
        return ;
    }
    assert(string_views(out@) =~= start + Seq::<Seq<char>>::empty());
}

fn member_check(
    members: &[MemberDependencies],
    member: &MemberDependencies,
    row: &Vec<&'static str>,
    on_charter: bool,
    out: &mut Vec<String>,
)
    ensures
        string_views(final(out)@) == string_views(old(out)@) + declaration_findings(
            member_views(members@),
            member@.name,
            name_views(row@),
            on_charter,
            member@.declared,
        ),
{
    let ghost start = string_views(out@);
    let ghost all = member@.declared;
    let name = chars_of(member.name.as_str());
    let mut index: usize = 0;
    assert(all.subrange(0, 0) =~= Seq::<(bool, Seq<char>)>::empty());
    assert(start + Seq::<Seq<char>>::empty() =~= start);
    while index < member.declared.len()
        invariant
            all == declared_views(member.declared@),
            name@ == member.name@,
            index <= member.declared@.len(),
            string_views(out@) == start + declaration_findings(
                member_views(members@),
                member@.name,
                name_views(row@),
                on_charter,
                all.subrange(0, index as int),
            ),
        decreases member.declared@.len() - index,
    {
        let ghost prefix = all.subrange(0, index as int + 1);
        assert(prefix.drop_last() =~= all.subrange(0, index as int));
        assert(prefix.last() == member.declared@[index as int]@);
        declaration_check(members, name.as_slice(), row, on_charter, &member.declared[index], out);
        index = index + 1;
        proof {
            vstd::seq_lib::lemma_concat_associative(
                start,
                declaration_findings(
                    member_views(members@),
                    member@.name,
                    name_views(row@),
                    on_charter,
                    prefix.drop_last(),
                ),
                declaration_finding(
                    member_views(members@),
                    member@.name,
                    name_views(row@),
                    on_charter,
                    prefix.last(),
                ),
            );
        }
    }
    assert(all.subrange(0, all.len() as int) =~= all);
}

/// Check every workspace member's edges against the matrix.
pub fn dependency_violations(members: &[MemberDependencies]) -> (violations: Vec<String>)
    ensures
        string_views(violations@) == dependency_findings(member_views(members@)),
{
    let ghost views = member_views(members@);
    let rows = allowed();
    let charter = zero_dep();
    let mut out: Vec<String> = Vec::new();
    // Members without a row.
    let mut index: usize = 0;
    assert(views.subrange(0, 0) =~= Seq::<MemberDependenciesView>::empty());
    assert(string_views(out@) =~= Seq::<Seq<char>>::empty());
    while index < members.len()
        invariant
            views == member_views(members@),
            row_views(rows@) == allowed_rows(),
            index <= members@.len(),
            string_views(out@) == rowless_members(views.subrange(0, index as int)),
        decreases members@.len() - index,
    {
        let ghost prefix = views.subrange(0, index as int + 1);
        assert(prefix.drop_last() =~= views.subrange(0, index as int));
        assert(prefix.last() == members@[index as int]@);
        let name = chars_of(members[index].name.as_str());
        if find_row(&rows, name.as_slice()).is_none() {
            let mut text: Vec<char> = Vec::new();
            push_chars(&mut text, name.as_slice());
            push_text(
                &mut text,
                ": workspace member has no row in xtask/src/deps.rs ALLOWED \u{2014} add one so the one rule reaches it",
            );
            push_string(&mut out, string_from_chars(text.as_slice()));
        } else {
            assert(string_views(out@) =~= string_views(out@) + Seq::<Seq<char>>::empty());
        }
        index = index + 1;
        assert(string_views(out@) =~= rowless_members(views.subrange(0, index as int)));
    }
    assert(views.subrange(0, views.len() as int) =~= views);
    let ghost after_rowless = string_views(out@);
    // Rows without a member.
    let mut r: usize = 0;
    let ghost rv = allowed_rows();
    assert(rv.subrange(0, 0) =~= Seq::<(Seq<char>, Seq<Seq<char>>)>::empty());
    assert(after_rowless + Seq::<Seq<char>>::empty() =~= after_rowless);
    while r < rows.len()
        invariant
            views == member_views(members@),
            row_views(rows@) == rv,
            rv == allowed_rows(),
            r <= rows@.len(),
            string_views(out@) == after_rowless + stale_rows(views, rv.subrange(0, r as int)),
        decreases rows@.len() - r,
    {
        let ghost prefix = rv.subrange(0, r as int + 1);
        assert(prefix.drop_last() =~= rv.subrange(0, r as int));
        assert(prefix.last().0 == rows@[r as int].krate@);
        let krate = chars_of(rows[r].krate);
        let ghost before = string_views(out@);
        if !is_member_name(members, krate.as_slice()) {
            let mut text: Vec<char> = Vec::new();
            push_chars(&mut text, krate.as_slice());
            push_text(
                &mut text,
                ": has an ALLOWED row but is not a workspace member; the matrix in xtask/src/deps.rs has gone stale",
            );
            push_string(&mut out, string_from_chars(text.as_slice()));
        }
        r = r + 1;
        proof {
            vstd::seq_lib::lemma_concat_associative(
                after_rowless,
                stale_rows(views, prefix.drop_last()),
                if !is_member(views, prefix.last().0) {
                    seq![
                        prefix.last().0
                            + ": has an ALLOWED row but is not a workspace member; the matrix in xtask/src/deps.rs has gone stale"@,
                    ]
                } else {
                    Seq::<Seq<char>>::empty()
                },
            );
        }
        assert(string_views(out@) =~= after_rowless + stale_rows(views, rv.subrange(0, r as int)));
    }
    assert(rv.subrange(0, rv.len() as int) =~= rv);
    let ghost after_stale = string_views(out@);
    // Each member's edges.
    let mut m: usize = 0;
    assert(after_stale + Seq::<Seq<char>>::empty() =~= after_stale);
    while m < members.len()
        invariant
            views == member_views(members@),
            row_views(rows@) == allowed_rows(),
            name_views(charter@) == zero_dep_crates(),
            m <= members@.len(),
            string_views(out@) == after_stale + edge_findings(views, m as int),
        decreases members@.len() - m,
    {
        let member = &members[m];
        assert(views[m as int] == member@);
        let name = chars_of(member.name.as_str());
        let ghost before = string_views(out@);
        match find_row(&rows, name.as_slice()) {
            Some(i) => {
                let on_charter = names_contain(&charter, name.as_slice());
                member_check(members, member, &rows[i].allowed, on_charter, &mut out);
            },
            None => {
                assert(string_views(out@) =~= before + Seq::<Seq<char>>::empty());
            },
        }
        m = m + 1;
        proof {
            let mv = views[m - 1];
            vstd::seq_lib::lemma_concat_associative(
                after_stale,
                edge_findings(views, m - 1),
                match row_of(allowed_rows(), mv.name) {
                    Some(row) => declaration_findings(
                        views,
                        mv.name,
                        row,
                        zero_dep_crates().contains(mv.name),
                        mv.declared,
                    ),
                    None => Seq::empty(),
                },
            );
        }
    }
    out
}

// ---------------------------------------------------------------------------------------
// The pure layer
// ---------------------------------------------------------------------------------------

/// The member paths, as the workspace manifest spells them, that are not part of the pure
/// layer.
pub open spec fn non_pure_paths() -> Seq<Seq<char>> {
    seq![
        "crates/ccid-testkit"@,
        "crates/ccid-backend-usb"@,
        "crates/ccid-backend-pcsc"@,
        "crates/ccidkit"@,
        "crates/ccid-cli"@,
        "crates/ccid-driverkit"@,
        "xtask"@,
    ]
}

/// The member paths that are not part of the pure layer.
pub fn non_pure_members() -> (paths: Vec<&'static str>)
    ensures
        name_views(paths@) == non_pure_paths(),
{
    let paths = vec![
        "crates/ccid-testkit",
        "crates/ccid-backend-usb",
        "crates/ccid-backend-pcsc",
        "crates/ccidkit",
        "crates/ccid-cli",
        "crates/ccid-driverkit",
        "xtask",
    ];
    assert(name_views(paths@) =~= non_pure_paths());
    paths
}

/// Every exemption is spelled as the workspace manifest spells members: `xtask` or a path
/// under `crates/`.
pub proof fn the_denylist_is_paths_not_names(i: int)
    requires
        0 <= i < non_pure_paths().len(),
    ensures
        non_pure_paths()[i] == "xtask"@ || starts_with(non_pure_paths()[i], "crates/"@),
{
    reveal_strlit("crates/");
    reveal_strlit("crates/ccid-testkit");
    reveal_strlit("crates/ccid-backend-usb");
    reveal_strlit("crates/ccid-backend-pcsc");
    reveal_strlit("crates/ccidkit");
    reveal_strlit("crates/ccid-cli");
    reveal_strlit("crates/ccid-driverkit");
    let p = non_pure_paths()[i];
    if i < 6 {
        assert(p.subrange(0, 7) =~= "crates/"@);
    }
}

/// Whether a path ends with the given components, as `Path::ends_with` decides.
pub uninterp spec fn path_has_suffix(path: Seq<char>, suffix: Seq<char>) -> bool;

/// `Path::ends_with`: whether the trailing components of `path` are those of `suffix`.
#[verifier::external_body]
fn path_ends_with(path: &str, suffix: &str) -> (ends: bool)
    ensures
        ends == path_has_suffix(path@, suffix@),
{
    std::path::Path::new(path).ends_with(suffix)
}

/// A workspace member as the purity gate sees it.
pub struct PurityMember {
    pub name: String,
    pub directory: String,
    pub declared: Vec<Declared>,
}

/// What a member holds for the purity gate.
pub struct PurityMemberView {
    pub name: Seq<char>,
    pub directory: Seq<char>,
    pub declared: Seq<(bool, Seq<char>)>,
}

impl View for PurityMember {
    type V = PurityMemberView;

    open spec fn view(&self) -> PurityMemberView {
        PurityMemberView {
            name: self.name@,
            directory: self.directory@,
            declared: declared_views(self.declared@),
        }
    }
}

/// The views of purity members.
pub open spec fn purity_views(members: Seq<PurityMember>) -> Seq<PurityMemberView> {
    members.map_values(|m: PurityMember| m@)
}

/// Whether a member's directory is exempted from the pure layer.
pub open spec fn is_exempted(directory: Seq<char>) -> bool {
    exists|i: int| 0 <= i < non_pure_paths().len() && path_has_suffix(directory, #[trigger] non_pure_paths()[i])
}

/// Whether some member lives at an exempted path.
pub open spec fn exemption_used(members: Seq<PurityMemberView>, exempted: Seq<char>) -> bool {
    exists|i: int| 0 <= i < members.len() && path_has_suffix(#[trigger] members[i].directory, exempted)
}

/// The first exemption that names no member, if any.
pub open spec fn first_stale(members: Seq<PurityMemberView>, exemptions: Seq<Seq<char>>) -> Option<
    Seq<char>,
>
    decreases exemptions.len(),
{
    if exemptions.len() == 0 {
        None
    } else if !exemption_used(members, exemptions[0]) {
        Some(exemptions[0])
    } else {
        first_stale(members, exemptions.drop_first())
    }
}

/// The names of the pure members.
pub open spec fn pure_names(members: Seq<PurityMemberView>) -> Seq<Seq<char>>
    decreases members.len(),
{
    if members.len() == 0 {
        Seq::empty()
    } else if is_exempted(members.last().directory) {
        pure_names(members.drop_last())
    } else {
        pure_names(members.drop_last()).push(members.last().name)
    }
}

/// The findings for one pure member's declarations outside the layer.
pub open spec fn impure_declarations(
    name: Seq<char>,
    layer: Seq<Seq<char>>,
    declared: Seq<(bool, Seq<char>)>,
) -> Seq<Seq<char>>
    decreases declared.len(),
{
    if declared.len() == 0 {
        Seq::empty()
    } else {
        let (dev, dep) = declared.last();
        impure_declarations(name, layer, declared.drop_last()) + if layer.contains(dep) {
            Seq::<Seq<char>>::empty()
        } else {
            seq![
                name + ": declares "@ + (if dev {
                    "dev-"@
                } else {
                    ""@
                }) + "dependency `"@ + dep
                    + "`; the pure layer may depend only on itself (docs/adr/0013)"@,
            ]
        }
    }
}

/// The findings for the pure members, in member order.
pub open spec fn purity_findings(members: Seq<PurityMemberView>, layer: Seq<Seq<char>>) -> Seq<
    Seq<char>,
>
    decreases members.len(),
{
    if members.len() == 0 {
        Seq::empty()
    } else {
        let m = members.last();
        purity_findings(members.drop_last(), layer) + if is_exempted(m.directory) {
            Seq::<Seq<char>>::empty()
        } else {
            impure_declarations(m.name, layer, m.declared)
        }
    }
}

/// The purity gate's answer: a stale exemption stops it; otherwise every declaration of a
/// pure member that names something outside the pure layer, dev-dependencies included.
pub open spec fn purity_outcome(members: Seq<PurityMemberView>) -> std::result::Result<
    Seq<Seq<char>>,
    Seq<char>,
> {
    match first_stale(members, non_pure_paths()) {
        Some(exempted) => Err(
            "`"@ + exempted
                + "` is exempted from the pure layer but is not a workspace member; the exemption list in xtask/src/purity.rs has gone stale"@,
        ),
        None => Ok(purity_findings(members, pure_names(members))),
    }
}

fn directory_exempted(directory: &str) -> (exempted: bool)
    ensures
        exempted == is_exempted(directory@),
{
    let paths = non_pure_members();
    let mut index: usize = 0;
    while index < paths.len()
        invariant
            name_views(paths@) == non_pure_paths(),
            index <= paths@.len(),
            forall|k: int| 0 <= k < index ==> !path_has_suffix(directory@, non_pure_paths()[k]),
        decreases paths@.len() - index,
    {
        assert(non_pure_paths()[index as int] == paths@[index as int]@);
        if path_ends_with(directory, paths[index]) {
            return true;
        }
        index = index + 1;
    }
    false
}

fn any_member_at(members: &[PurityMember], exempted: &str) -> (found: bool)
    ensures
        found == exemption_used(purity_views(members@), exempted@),
{
    let ghost views = purity_views(members@);
    let mut index: usize = 0;
    while index < members.len()
        invariant
            views == purity_views(members@),
            index <= members@.len(),
            forall|k: int| 0 <= k < index ==> !path_has_suffix(views[k].directory, exempted@),
        decreases members@.len() - index,
    {
        assert(views[index as int] == members@[index as int]@);
        if path_ends_with(members[index].directory.as_str(), exempted) {
            assert(path_has_suffix(views[index as int].directory, exempted@));
            return true;
        }
        index = index + 1;
    }
    false
}

fn layer_contains(layer: &Vec<Vec<char>>, name: &[char]) -> (found: bool)
    ensures
        found == crate::manifest::vec_views(layer@).contains(name@),
{
    let mut index: usize = 0;
    while index < layer.len()
        invariant
            index <= layer@.len(),
            forall|k: int| 0 <= k < index ==> layer@[k]@ != name@,
        decreases layer@.len() - index,
    {
        if chars_equal(layer[index].as_slice(), name) {
            assert(crate::manifest::vec_views(layer@)[index as int] == name@);
            return true;
        }
        index = index + 1;
    }
    proof {
        if crate::manifest::vec_views(layer@).contains(name@) {
            let k = choose|k: int|
                0 <= k < crate::manifest::vec_views(layer@).len() && crate::manifest::vec_views(
                    layer@,
                )[k] == name@;
            assert(layer@[k]@ == name@);
        }
    }
    false
}

/// Check every pure member's manifest against the closure rule.
pub fn purity_violations(members: &[PurityMember]) -> (outcome: std::result::Result<Vec<String>, String>)
    ensures
        match purity_outcome(purity_views(members@)) {
            Ok(found) => outcome matches Ok(v) && string_views(v@) == found,
            Err(message) => outcome matches Err(m) && m@ == message,
        },
{
    let ghost views = purity_views(members@);
    let paths = non_pure_members();
    let mut e: usize = 0;
    assert(non_pure_paths().subrange(0, non_pure_paths().len() as int) =~= non_pure_paths());
    while e < paths.len()
        invariant
            views == purity_views(members@),
            name_views(paths@) == non_pure_paths(),
            e <= paths@.len(),
            first_stale(views, non_pure_paths()) == first_stale(
                views,
                non_pure_paths().subrange(e as int, non_pure_paths().len() as int),
            ),
        decreases paths@.len() - e,
    {
        let ghost rest = non_pure_paths().subrange(e as int, non_pure_paths().len() as int);
        assert(rest[0] == paths@[e as int]@);
        if !any_member_at(members, paths[e]) {
            let mut text: Vec<char> = Vec::new();
            push_text(&mut text, "`");
            push_text(&mut text, paths[e]);
            push_text(
                &mut text,
                "` is exempted from the pure layer but is not a workspace member; the exemption list in xtask/src/purity.rs has gone stale",
            );
            return Err(string_from_chars(text.as_slice()));
        }
        assert(rest.drop_first() =~= non_pure_paths().subrange(
            e as int + 1,
            non_pure_paths().len() as int,
        ));
        e = e + 1;
    }
    // The pure layer's names.
    let mut layer: Vec<Vec<char>> = Vec::new();
    let mut index: usize = 0;
    assert(views.subrange(0, 0) =~= Seq::<PurityMemberView>::empty());
    assert(crate::manifest::vec_views(layer@) =~= Seq::<Seq<char>>::empty());
    while index < members.len()
        invariant
            views == purity_views(members@),
            index <= members@.len(),
            crate::manifest::vec_views(layer@) == pure_names(views.subrange(0, index as int)),
        decreases members@.len() - index,
    {
        let ghost prefix = views.subrange(0, index as int + 1);
        assert(prefix.drop_last() =~= views.subrange(0, index as int));
        assert(prefix.last() == members@[index as int]@);
        if !directory_exempted(members[index].directory.as_str()) {
            let ghost before = layer@;
            let name = chars_of(members[index].name.as_str());
            layer.push(name);
            assert(crate::manifest::vec_views(layer@) =~= crate::manifest::vec_views(before).push(
                members@[index as int].name@,
            ));
        }
        index = index + 1;
    }
    assert(views.subrange(0, views.len() as int) =~= views);
    let ghost names = crate::manifest::vec_views(layer@);
    // Each pure member's declarations.
    let mut out: Vec<String> = Vec::new();
    let mut m: usize = 0;
    assert(string_views(out@) =~= Seq::<Seq<char>>::empty());
    while m < members.len()
        invariant
            views == purity_views(members@),
            names == crate::manifest::vec_views(layer@),
            names == pure_names(views),
            m <= members@.len(),
            string_views(out@) == purity_findings(views.subrange(0, m as int), names),
        decreases members@.len() - m,
    {
        let ghost prefix = views.subrange(0, m as int + 1);
        assert(prefix.drop_last() =~= views.subrange(0, m as int));
        assert(prefix.last() == members@[m as int]@);
        let ghost before = string_views(out@);
        if !directory_exempted(members[m].directory.as_str()) {
            let member = &members[m];
            let name = chars_of(member.name.as_str());
            let ghost all = member@.declared;
            let mut d: usize = 0;
            assert(all.subrange(0, 0) =~= Seq::<(bool, Seq<char>)>::empty());
            assert(before + Seq::<Seq<char>>::empty() =~= before);
            while d < member.declared.len()
                invariant
                    all == declared_views(member.declared@),
                    name@ == member.name@,
                    names == crate::manifest::vec_views(layer@),
                    d <= member.declared@.len(),
                    string_views(out@) == before + impure_declarations(
                        name@,
                        names,
                        all.subrange(0, d as int),
                    ),
                decreases member.declared@.len() - d,
            {
                let ghost dprefix = all.subrange(0, d as int + 1);
                assert(dprefix.drop_last() =~= all.subrange(0, d as int));
                assert(dprefix.last() == member.declared@[d as int]@);
                let declared = &member.declared[d];
                let dep = chars_of(declared.name.as_str());
                let ghost before_d = string_views(out@);
                if !layer_contains(&layer, dep.as_slice()) {
                    let mut text: Vec<char> = Vec::new();
                    push_chars(&mut text, name.as_slice());
                    push_text(&mut text, ": declares ");
                    if declared.dev {
                        push_text(&mut text, "dev-");
                    } else {
                        push_text(&mut text, "");
                    }
                    push_text(&mut text, "dependency `");
                    push_chars(&mut text, dep.as_slice());
                    push_text(&mut text, "`; the pure layer may depend only on itself (docs/adr/0013)");
                    push_string(&mut out, string_from_chars(text.as_slice()));
                }
                d = d + 1;
                proof {
                    vstd::seq_lib::lemma_concat_associative(
                        before,
                        impure_declarations(name@, names, dprefix.drop_last()),
                        if names.contains(dprefix.last().1) {
                            Seq::<Seq<char>>::empty()
                        } else {
                            seq![
                                name@ + ": declares "@ + (if dprefix.last().0 {
                                    "dev-"@
                                } else {
                                    ""@
                                }) + "dependency `"@ + dprefix.last().1
                                    + "`; the pure layer may depend only on itself (docs/adr/0013)"@,
                            ]
                        },
                    );
                }
                assert(string_views(out@) =~= before + impure_declarations(
                    name@,
                    names,
                    all.subrange(0, d as int),
                ));
            }
            assert(all.subrange(0, all.len() as int) =~= all);
        } else {
            assert(string_views(out@) =~= before + Seq::<Seq<char>>::empty());
        }
        m = m + 1;
    }
    assert(views.subrange(0, views.len() as int) =~= views);
    Ok(out)
}

// ---------------------------------------------------------------------------------------
// Binary and library names
// ---------------------------------------------------------------------------------------

/// A workspace member as the name gate sees it.
pub struct TargetMember {
    pub name: String,
    pub has_lib: bool,
    pub has_main: bool,
    pub manifest: String,
}

/// What a member holds for the name gate.
pub struct TargetMemberView {
    pub name: Seq<char>,
    pub has_lib: bool,
    pub has_main: bool,
    pub manifest: Seq<char>,
}

impl View for TargetMember {
    type V = TargetMemberView;

    open spec fn view(&self) -> TargetMemberView {
        TargetMemberView {
            name: self.name@,
            has_lib: self.has_lib,
            has_main: self.has_main,
            manifest: self.manifest@,
        }
    }
}

/// The views of target members.
pub open spec fn target_views(members: Seq<TargetMember>) -> Seq<TargetMemberView> {
    members.map_values(|m: TargetMember| m@)
}

/// The names of the members with a library target.
pub open spec fn lib_names(members: Seq<TargetMemberView>) -> Seq<Seq<char>>
    decreases members.len(),
{
    if members.len() == 0 {
        Seq::empty()
    } else if members.last().has_lib {
        lib_names(members.drop_last()).push(members.last().name)
    } else {
        lib_names(members.drop_last())
    }
}

/// The binary targets of one member, with its package name: the `[[bin]]` names, or, when
/// there are none and `src/main.rs` exists, the implicit one named after the package.
pub open spec fn member_bins(m: TargetMemberView) -> Seq<(Seq<char>, Seq<char>)> {
    let declared = bin_names_text(m.manifest);
    if declared.len() == 0 {
        if m.has_main {
            seq![(m.name, m.name)]
        } else {
            Seq::empty()
        }
    } else {
        declared.map_values(|bin: Seq<char>| (m.name, bin))
    }
}

/// The binary targets of all members, in member order.
pub open spec fn all_bins(members: Seq<TargetMemberView>) -> Seq<(Seq<char>, Seq<char>)>
    decreases members.len(),
{
    if members.len() == 0 {
        Seq::empty()
    } else {
        all_bins(members.drop_last()) + member_bins(members.last())
    }
}

/// The findings for binary targets named like a library crate.
pub open spec fn collisions(libs: Seq<Seq<char>>, bins: Seq<(Seq<char>, Seq<char>)>) -> Seq<
    Seq<char>,
>
    decreases bins.len(),
{
    if bins.len() == 0 {
        Seq::empty()
    } else {
        let (package, bin) = bins.last();
        collisions(libs, bins.drop_last()) + if libs.contains(bin) {
            seq![
                package + ": bin target `"@ + bin
                    + "` shares its name with a lib crate; parallel rustdoc fights over target/doc/"@
                    + bin + " (docs/adr/0015)"@,
            ]
        } else {
            Seq::<Seq<char>>::empty()
        }
    }
}

/// Reject every binary target that shares its name with a library crate.
pub fn bin_name_violations(members: &[TargetMember]) -> (violations: Vec<String>)
    ensures
        string_views(violations@) == collisions(
            lib_names(target_views(members@)),
            all_bins(target_views(members@)),
        ),
{
    let ghost views = target_views(members@);
    let mut libs: Vec<Vec<char>> = Vec::new();
    let mut bins: Vec<(Vec<char>, Vec<char>)> = Vec::new();
    let mut index: usize = 0;
    assert(views.subrange(0, 0) =~= Seq::<TargetMemberView>::empty());
    assert(crate::manifest::vec_views(libs@) =~= Seq::<Seq<char>>::empty());
    assert(pair_views(bins@) =~= Seq::<(Seq<char>, Seq<char>)>::empty());
    while index < members.len()
        invariant
            views == target_views(members@),
            index <= members@.len(),
            crate::manifest::vec_views(libs@) == lib_names(views.subrange(0, index as int)),
            pair_views(bins@) == all_bins(views.subrange(0, index as int)),
        decreases members@.len() - index,
    {
        let ghost prefix = views.subrange(0, index as int + 1);
        assert(prefix.drop_last() =~= views.subrange(0, index as int));
        assert(prefix.last() == members@[index as int]@);
        let member = &members[index];
        let name = chars_of(member.name.as_str());
        if member.has_lib {
            let ghost before = libs@;
            libs.push(chars_of(member.name.as_str()));
            assert(crate::manifest::vec_views(libs@) =~= crate::manifest::vec_views(before).push(
                name@,
            ));
        }
        let declared = declared_bin_names(member.manifest.as_str());
        let ghost before_bins = pair_views(bins@);
        if declared.len() == 0 {
            if member.has_main {
                bins.push((chars_of(member.name.as_str()), chars_of(member.name.as_str())));
                assert(pair_views(bins@) =~= before_bins + seq![(name@, name@)]);
            } else {
                assert(pair_views(bins@) =~= before_bins + Seq::<(Seq<char>, Seq<char>)>::empty());
            }
        } else {
            let ghost names = declared@.map_values(|s: String| s@);
            let mut k: usize = 0;
            assert(before_bins + names.subrange(0, 0).map_values(
                |bin: Seq<char>| (name@, bin),
            ) =~= before_bins);
            while k < declared.len()
                invariant
                    names == declared@.map_values(|s: String| s@),
                    name@ == member.name@,
                    k <= declared@.len(),
                    pair_views(bins@) == before_bins + names.subrange(0, k as int).map_values(
                        |bin: Seq<char>| (name@, bin),
                    ),
                decreases declared@.len() - k,
            {
                let ghost b0 = pair_views(bins@);
                let ghost b0_raw = bins@;
                let first = chars_of(member.name.as_str());
                let second = chars_of(declared[k].as_str());
                bins.push((first, second));
                assert(names[k as int] == declared@[k as int]@);
                assert(pair_views(bins@) =~= b0.push((name@, names[k as int])));
                assert(names.subrange(0, k as int + 1).map_values(|bin: Seq<char>| (name@, bin))
                    =~= names.subrange(0, k as int).map_values(|bin: Seq<char>| (name@, bin)).push(
                    (name@, names[k as int]),
                ));
                k = k + 1;
                assert(pair_views(bins@) =~= before_bins + names.subrange(0, k as int).map_values(
                    |bin: Seq<char>| (name@, bin),
                ));
            }
            assert(names.subrange(0, names.len() as int) =~= names);
        }
        index = index + 1;
    }
    assert(views.subrange(0, views.len() as int) =~= views);
    let ghost libs_view = crate::manifest::vec_views(libs@);
    let ghost bins_view = pair_views(bins@);
    let mut out: Vec<String> = Vec::new();
    let mut b: usize = 0;
    assert(bins_view.subrange(0, 0) =~= Seq::<(Seq<char>, Seq<char>)>::empty());
    assert(string_views(out@) =~= Seq::<Seq<char>>::empty());
    while b < bins.len()
        invariant
            libs_view == crate::manifest::vec_views(libs@),
            bins_view == pair_views(bins@),
            b <= bins@.len(),
            string_views(out@) == collisions(libs_view, bins_view.subrange(0, b as int)),
        decreases bins@.len() - b,
    {
        let ghost prefix = bins_view.subrange(0, b as int + 1);
        assert(prefix.drop_last() =~= bins_view.subrange(0, b as int));
        assert(prefix.last() == (bins@[b as int].0@, bins@[b as int].1@));
        let (package, bin) = &bins[b];
        if layer_contains(&libs, bin.as_slice()) {
            let mut text: Vec<char> = Vec::new();
            push_chars(&mut text, package.as_slice());
            push_text(&mut text, ": bin target `");
            push_chars(&mut text, bin.as_slice());
            push_text(
                &mut text,
                "` shares its name with a lib crate; parallel rustdoc fights over target/doc/",
            );
            push_chars(&mut text, bin.as_slice());
            push_text(&mut text, " (docs/adr/0015)");
            let ghost before = string_views(out@);
            push_string(&mut out, string_from_chars(text.as_slice()));
        } else {
            assert(string_views(out@) =~= string_views(out@) + Seq::<Seq<char>>::empty());
        }
        b = b + 1;
    }
    assert(bins_view.subrange(0, bins_view.len() as int) =~= bins_view);
    out
}

/// The views of pairs of texts.
pub open spec fn pair_views(pairs: Seq<(Vec<char>, Vec<char>)>) -> Seq<(Seq<char>, Seq<char>)> {
    pairs.map_values(|p: (Vec<char>, Vec<char>)| (p.0@, p.1@))
}

// ---------------------------------------------------------------------------------------
// Reporting
// ---------------------------------------------------------------------------------------

/// One repository gate: the name it is invoked by, what its holding means, and where to
/// read about it.
#[derive(Clone, Copy, Debug)]
pub struct GateInfo {
    pub name: &'static str,
    pub purpose: &'static str,
    pub reference: &'static str,
}

/// Every repository check as (name, purpose, reference), in the order the architecture lists them.
pub open spec fn gate_rows() -> Seq<(Seq<char>, Seq<char>, Seq<char>)> {
    seq![
        ("purity"@, "the pure layer declares no dependency outside itself, dev included"@, "docs/adr/0013"@),
        ("deps"@, "every dependency edge is an arrow the ALLOWED matrix carries"@, "docs/adr/0016 and ARCHITECTURE.md"@),
        ("unsafe-boundary"@, "`unsafe` appears only in the quarantine, each block under a SAFETY comment"@, "docs/adr/0011"@),
        ("quirkdb"@, "quirks/readers.toml is sorted, unique, attributed, and in vocabulary"@, "docs/adr/0009"@),
        ("bin-name"@, "every bin target's name differs from every lib crate's name"@, "docs/adr/0015"@),
    ]
}

/// The views of gate descriptions.
pub open spec fn gate_views(gates: Seq<GateInfo>) -> Seq<(Seq<char>, Seq<char>, Seq<char>)> {
    gates.map_values(|g: GateInfo| (g.name@, g.purpose@, g.reference@))
}

/// Every gate, in the order the architecture lists them.
pub fn gates() -> (gates: Vec<GateInfo>)
    ensures
        gate_views(gates@) == gate_rows(),
{
    let gates = vec![
        GateInfo {
            name: "purity",
            purpose: "the pure layer declares no dependency outside itself, dev included",
            reference: "docs/adr/0013",
        },
        GateInfo {
            name: "deps",
            purpose: "every dependency edge is an arrow the ALLOWED matrix carries",
            reference: "docs/adr/0016 and ARCHITECTURE.md",
        },
        GateInfo {
            name: "unsafe-boundary",
            purpose: "`unsafe` appears only in the quarantine, each block under a SAFETY comment",
            reference: "docs/adr/0011",
        },
        GateInfo {
            name: "quirkdb",
            purpose: "quirks/readers.toml is sorted, unique, attributed, and in vocabulary",
            reference: "docs/adr/0009",
        },
        GateInfo {
            name: "bin-name",
            purpose: "every bin target's name differs from every lib crate's name",
            reference: "docs/adr/0015",
        },
    ];
    assert(gate_views(gates@) =~= gate_rows());
    gates
}

/// The first gate with this name.
pub open spec fn gate_named(gates: Seq<(Seq<char>, Seq<char>, Seq<char>)>, wanted: Seq<char>) -> Option<
    int,
>
    decreases gates.len(),
{
    if gates.len() == 0 {
        None
    } else if gates[0].0 == wanted {
        Some(0)
    } else {
        match gate_named(gates.drop_first(), wanted) {
            Some(i) => Some(i + 1),
            None => None,
        }
    }
}

/// The index of the first gate named `wanted`.
pub fn find_gate(gates: &Vec<GateInfo>, wanted: &str) -> (found: Option<usize>)
    ensures
        match gate_named(gate_views(gates@), wanted@) {
            Some(i) => found == Some(i as usize),
            None => found is None,
        },
{
    let ghost views = gate_views(gates@);
    let wanted_chars = chars_of(wanted);
    let mut index: usize = 0;
    assert(views.subrange(0, views.len() as int) =~= views);
    while index < gates.len()
        invariant
            views == gate_views(gates@),
            index <= gates@.len(),
            wanted_chars@ == wanted@,
            gate_named(views, wanted@) == match gate_named(
                views.subrange(index as int, views.len() as int),
                wanted@,
            ) {
                Some(i) => Some(i + index),
                None => None,
            },
        decreases gates@.len() - index,
    {
        let ghost rest = views.subrange(index as int, views.len() as int);
        assert(rest[0] == views[index as int]);
        assert(views[index as int].0 == gates@[index as int].name@);
        if chars_are(wanted_chars.as_slice(), gates[index].name) {
            return Some(index);
        }
        assert(rest.drop_first() =~= views.subrange(index as int + 1, views.len() as int));
        index = index + 1;
    }
    None
}

/// What a gate run prints, and whether it passed.
pub struct GateReport {
    pub stdout: Vec<String>,
    pub stderr: Vec<String>,
    pub success: bool,
}

/// The lines a gate run prints: its purpose when it finds nothing; each finding and a count
/// when it finds something; and a failure when it could not run, because a gate that cannot
/// run tells nothing about its rule.
pub open spec fn report_lines(
    name: Seq<char>,
    purpose: Seq<char>,
    reference: Seq<char>,
    outcome: std::result::Result<Seq<Seq<char>>, Seq<char>>,
) -> (Seq<Seq<char>>, Seq<Seq<char>>, bool) {
    match outcome {
        Err(error) => (Seq::empty(), seq!["xtask: "@ + name + " could not run: "@ + error], false),
        Ok(violations) => if violations.len() == 0 {
            (seq![name + ": "@ + purpose], Seq::empty(), true)
        } else {
            (
                Seq::empty(),
                violations.map_values(|v: Seq<char>| name + ": "@ + v).push(
                    name + ": "@ + crate::text::decimal(violations.len()) + " violation(s). See "@
                        + reference,
                ),
                false,
            )
        },
    }
}

fn join3(first: &str, middle: &str, last: &str) -> (text: String)
    ensures
        text@ == first@ + middle@ + last@,
{
    let mut out: Vec<char> = Vec::new();
    push_text(&mut out, first);
    push_text(&mut out, middle);
    push_text(&mut out, last);
    assert(out@ =~= first@ + middle@ + last@);
    string_from_chars(out.as_slice())
}

/// Turn a gate's findings into what it prints and whether it passed.
pub fn report(gate: GateInfo, outcome: std::result::Result<Vec<String>, String>) -> (report: GateReport)
    ensures
        (string_views(report.stdout@), string_views(report.stderr@), report.success) == report_lines(
            gate.name@,
            gate.purpose@,
            gate.reference@,
            match outcome {
                Ok(v) => Ok(string_views(v@)),
                Err(e) => Err(e@),
            },
        ),
{
    match outcome {
        Err(error) => {
            let mut out: Vec<char> = Vec::new();
            push_text(&mut out, "xtask: ");
            push_text(&mut out, gate.name);
            push_text(&mut out, " could not run: ");
            push_text(&mut out, error.as_str());
            let mut stderr: Vec<String> = Vec::new();
            push_string(&mut stderr, string_from_chars(out.as_slice()));
            let stdout: Vec<String> = Vec::new();
            assert(string_views(stdout@) =~= Seq::<Seq<char>>::empty());
            assert(string_views(stderr@) =~= seq![
                "xtask: "@ + gate.name@ + " could not run: "@ + error@,
            ]);
            GateReport { stdout, stderr, success: false }
        },
        Ok(violations) => {
            if violations.len() == 0 {
                let mut stdout: Vec<String> = Vec::new();
                push_string(&mut stdout, join3(gate.name, ": ", gate.purpose));
                let stderr: Vec<String> = Vec::new();
                assert(string_views(stderr@) =~= Seq::<Seq<char>>::empty());
                assert(string_views(stdout@) =~= seq![gate.name@ + ": "@ + gate.purpose@]);
                assert(string_views(violations@).len() == 0);
                return GateReport { stdout, stderr, success: true };
            }
            let ghost views = string_views(violations@);
            let mut stderr: Vec<String> = Vec::new();
            let mut index: usize = 0;
            assert(string_views(stderr@) =~= views.subrange(0, 0).map_values(
                |v: Seq<char>| gate.name@ + ": "@ + v,
            ));
            while index < violations.len()
                invariant
                    views == string_views(violations@),
                    index <= violations@.len(),
                    string_views(stderr@) == views.subrange(0, index as int).map_values(
                        |v: Seq<char>| gate.name@ + ": "@ + v,
                    ),
                decreases violations@.len() - index,
            {
                let line = join3(gate.name, ": ", violations[index].as_str());
                assert(views[index as int] == violations@[index as int]@);
                let ghost before = string_views(stderr@);
                push_string(&mut stderr, line);
                assert(views.subrange(0, index as int + 1).map_values(
                    |v: Seq<char>| gate.name@ + ": "@ + v,
                ) =~= views.subrange(0, index as int).map_values(
                    |v: Seq<char>| gate.name@ + ": "@ + v,
                ).push(gate.name@ + ": "@ + views[index as int]));
                index = index + 1;
            }
            assert(views.subrange(0, views.len() as int) =~= views);
            let mut out: Vec<char> = Vec::new();
            push_text(&mut out, gate.name);
            push_text(&mut out, ": ");
            crate::text::push_decimal(&mut out, violations.len() as u64);
            push_text(&mut out, " violation(s). See ");
            push_text(&mut out, gate.reference);
            push_string(&mut stderr, string_from_chars(out.as_slice()));
            let stdout: Vec<String> = Vec::new();
            assert(string_views(stdout@) =~= Seq::<Seq<char>>::empty());
            GateReport { stdout, stderr, success: false }
        },
    }
}

/// The usage text: the invocation, then each gate's name padded to fifteen columns and its
/// purpose.
pub open spec fn usage_text(gates: Seq<(Seq<char>, Seq<char>, Seq<char>)>) -> Seq<Seq<char>> {
    seq!["usage: cargo run -p xtask -- <task>"@] + gates.map_values(
        |g: (Seq<char>, Seq<char>, Seq<char>)| "  "@ + padded(g.0, 15) + "  "@ + g.1,
    )
}

/// `text` followed by spaces up to `width` characters.
pub open spec fn padded(text: Seq<char>, width: nat) -> Seq<char> {
    if text.len() >= width {
        text
    } else {
        text + Seq::new((width - text.len()) as nat, |i: int| ' ')
    }
}

/// The lines of the usage message.
pub fn usage(gates: &Vec<GateInfo>) -> (lines: Vec<String>)
    ensures
        string_views(lines@) == usage_text(gate_views(gates@)),
{
    let ghost views = gate_views(gates@);
    let mut lines: Vec<String> = Vec::new();
    push_string(&mut lines, "usage: cargo run -p xtask -- <task>".to_owned());
    let mut index: usize = 0;
    assert(string_views(lines@) =~= seq!["usage: cargo run -p xtask -- <task>"@] + views.subrange(
        0,
        0,
    ).map_values(|g: (Seq<char>, Seq<char>, Seq<char>)| "  "@ + padded(g.0, 15) + "  "@ + g.1));
    while index < gates.len()
        invariant
            views == gate_views(gates@),
            index <= gates@.len(),
            string_views(lines@) == seq!["usage: cargo run -p xtask -- <task>"@] + views.subrange(
                0,
                index as int,
            ).map_values(
                |g: (Seq<char>, Seq<char>, Seq<char>)| "  "@ + padded(g.0, 15) + "  "@ + g.1,
            ),
        decreases gates@.len() - index,
    {
        let gate = gates[index];
        assert(views[index as int] == (gate.name@, gate.purpose@, gate.reference@));
        let name = chars_of(gate.name);
        let mut out: Vec<char> = Vec::new();
        push_text(&mut out, "  ");
        push_chars(&mut out, name.as_slice());
        let mut column: usize = name.len();
        let ghost start = out@;
        while column < 15
            invariant
                name@ == gate.name@,
                name@.len() <= column <= 15 || (column == name@.len() && column > 15),
                out@ == start + Seq::new((column - name@.len()) as nat, |i: int| ' '),
            decreases 15 - column,
        {
            out.push(' ');
            column = column + 1;
            assert(out@ =~= start + Seq::new((column - name@.len()) as nat, |i: int| ' '));
        }
        proof {
            if name@.len() >= 15 {
                assert(out@ =~= start);
            }
            assert(out@ =~= "  "@ + padded(name@, 15));
        }
        push_text(&mut out, "  ");
        push_text(&mut out, gate.purpose);
        let ghost before = string_views(lines@);
        push_string(&mut lines, string_from_chars(out.as_slice()));
        assert(views.subrange(0, index as int + 1).map_values(
            |g: (Seq<char>, Seq<char>, Seq<char>)| "  "@ + padded(g.0, 15) + "  "@ + g.1,
        ) =~= views.subrange(0, index as int).map_values(
            |g: (Seq<char>, Seq<char>, Seq<char>)| "  "@ + padded(g.0, 15) + "  "@ + g.1,
        ).push("  "@ + padded(gate.name@, 15) + "  "@ + gate.purpose@));
        index = index + 1;
    }
    assert(views.subrange(0, views.len() as int) =~= views);
    lines
}

} // verus!
