//! The status of a repository: how the staging area differs from the
//! committed manifest.

use vstd::prelude::*;

use crate::codec::distinct_pair_keys;
use crate::codec::pairs_view;
use crate::error::Error;
use crate::remote::ReadRemote;
use crate::repository::lock::distinct_names;
use crate::repository::lock::entries_map;
use crate::repository::lock::lock_enc;
use crate::repository::lock::Lock;
use crate::repository::standard_paths;
use crate::repository::RepositoryStructure;
use crate::strutil::string_eq;
use crate::volume::VolumeView;

verus! {

/// How a name is reported: present only in the staged manifest, only in
/// the committed one, or in both with differing digests. A name in both
/// with the same digest is not reported. Each name falls in at most one
/// bucket.
pub open spec fn status_label(
    st: Map<Seq<char>, VolumeView>,
    co: Map<Seq<char>, VolumeView>,
    n: Seq<char>,
) -> Option<Seq<char>> {
    if st.contains_key(n) && !co.contains_key(n) {
        Some("Added"@)
    } else if co.contains_key(n) && !st.contains_key(n) {
        Some("Removed"@)
    } else if st.contains_key(n) && co.contains_key(n) && st[n].hash != co[n].hash {
        Some("Changed"@)
    } else {
        None
    }
}

/// A manifest never differs from itself: no name is reported.
pub proof fn lemma_status_fresh(m: Map<Seq<char>, VolumeView>)
    ensures
        forall|n: Seq<char>| status_label(m, m, n) is None,
{
}

/// Whether two optional digests hold the same characters.
fn hash_eq(a: &Option<String>, b: &Option<String>) -> (r: bool)
    ensures
        r == ((match a {
            Some(x) => Some(x@),
            None => None::<Seq<char>>,
        }) == (match b {
            Some(y) => Some(y@),
            None => None::<Seq<char>>,
        })),
{
    match (a, b) {
        (None, None) => true,
        (Some(x), Some(y)) => string_eq(x.as_str(), y.as_str()),
        _ => false,
    }
}

/// Computes the report: every name that the staging area would add,
/// remove, or change, each in exactly one bucket.
pub fn status_volumes(staged: &Lock, committed: &Lock) -> (r: Vec<(String, String)>)
    requires
        staged.wf(),
        committed.wf(),
    ensures
        forall|k: int|
            0 <= k < pairs_view(r@).len() ==> status_label(
                staged@,
                committed@,
                (#[trigger] pairs_view(r@)[k]).0,
            ) == Some(pairs_view(r@)[k].1),
        forall|n: Seq<char>|
            status_label(staged@, committed@, n) is Some ==> exists|k: int|
                0 <= k < pairs_view(r@).len() && (#[trigger] pairs_view(r@)[k]).0 == n,
        distinct_pair_keys(pairs_view(r@)),
{
    let mut out: Vec<(String, String)> = Vec::new();
    let ghost st = staged@;
    let ghost co = committed@;
    proof {
        staged.lemma_entries_distinct();
        committed.lemma_entries_distinct();
    }
    let ghost mut idxs: Seq<int> = Seq::empty();
    let n1 = staged.len();
    let mut i: usize = 0;
    while i < n1
        invariant
            0 <= i <= n1,
            n1 == staged.entries().len(),
            staged.wf(),
            committed.wf(),
            st == staged@,
            co == committed@,
            forall|i2: int, j2: int|
                0 <= i2 < j2 < staged.entries().len() ==> (#[trigger] staged.entries()[i2]).name
                    != (#[trigger] staged.entries()[j2]).name,
            idxs.len() == out@.len(),
            idxs.len() == pairs_view(out@).len(),
            forall|k: int, l: int| 0 <= k < l < idxs.len() ==> idxs[k] < idxs[l],
            forall|k: int|
                0 <= k < idxs.len() ==> 0 <= #[trigger] idxs[k] < i && pairs_view(out@)[k].0
                    == staged.entries()[idxs[k]].name,
            forall|k: int|
                0 <= k < pairs_view(out@).len() ==> status_label(
                    st,
                    co,
                    (#[trigger] pairs_view(out@)[k]).0,
                ) == Some(pairs_view(out@)[k].1),
            forall|j: int|
                0 <= j < i && status_label(st, co, (#[trigger] staged.entries()[j]).name) is Some
                    ==> exists|k: int|
                    0 <= k < pairs_view(out@).len() && (#[trigger] pairs_view(out@)[k]).0
                        == staged.entries()[j].name,
        decreases n1 - i,
    {
        let v = staged.index(i);
        proof {
            staged.lemma_entries_in_map(i as int);
        }
        let ghost prev = out@;
        let push_label: Option<&str> = match committed.get(v.get_name()) {
            None => Some("Added"),
            Some(c) => {
                if !hash_eq(v.get_hash(), c.get_hash()) {
                    Some("Changed")
                } else {
                    None
                }
            },
        };
        let ghost expected = status_label(st, co, staged.entries()[i as int].name);
        match push_label {
            Some(l) => {
                proof {
                    assert(expected == Some(l@));
                }
                out.push((v.get_name().to_owned(), l.to_owned()));
                proof {
                    idxs = idxs.push(i as int);
                    assert(forall|k: int| 0 <= k < prev.len() ==> out@[k] == prev[k]);
                    assert(forall|k: int|
                        0 <= k < out@.len() ==> #[trigger] pairs_view(out@)[k] == (
                            out@[k].0@,
                            out@[k].1@,
                        ));
                    assert(forall|k: int|
                        0 <= k < prev.len() ==> #[trigger] pairs_view(prev)[k] == (
                            prev[k].0@,
                            prev[k].1@,
                        ));
                    assert(pairs_view(out@)[prev.len() as int] == (
                        staged.entries()[i as int].name,
                        l@,
                    ));
                    assert(forall|k: int|
                        0 <= k < prev.len() ==> #[trigger] pairs_view(out@)[k] == pairs_view(
                            prev,
                        )[k]);
                    assert forall|j: int|
                        0 <= j < i + 1 && status_label(
                            st,
                            co,
                            (#[trigger] staged.entries()[j]).name,
                        ) is Some implies exists|k: int|
                        0 <= k < pairs_view(out@).len() && (#[trigger] pairs_view(out@)[k]).0
                            == staged.entries()[j].name by {
                        if j < i {
                            let k = choose|k: int|
                                0 <= k < pairs_view(prev).len() && (#[trigger] pairs_view(prev)[
                                    k
                                ]).0 == staged.entries()[j].name;
                            assert(pairs_view(out@)[k].0 == staged.entries()[j].name);
                        } else {
                            assert(pairs_view(out@)[prev.len() as int].0 == staged.entries()[
                                j
                            ].name);
                        }
                    }
                }
            },
            None => {
                proof {
                    assert(expected is None);
                    assert forall|j: int|
                        0 <= j < i + 1 && status_label(
                            st,
                            co,
                            (#[trigger] staged.entries()[j]).name,
                        ) is Some implies exists|k: int|
                        0 <= k < pairs_view(out@).len() && (#[trigger] pairs_view(out@)[k]).0
                            == staged.entries()[j].name by {
                        assert(j < i);
                    }
                }
            },
        }
        i += 1;
    }
    let ghost len1 = out@.len() as int;
    proof {
        assert forall|n: Seq<char>|
            st.contains_key(n) && status_label(st, co, n) is Some implies exists|k: int|
            0 <= k < pairs_view(out@).len() && (#[trigger] pairs_view(out@)[k]).0 == n by {
            staged.lemma_map_in_entries(n);
            let j = choose|j: int|
                0 <= j < staged.entries().len() && (#[trigger] staged.entries()[j]).name == n;
            assert(status_label(st, co, staged.entries()[j].name) is Some);
        }
        assert forall|k: int, l: int|
            0 <= k < l < pairs_view(out@).len() implies (#[trigger] pairs_view(out@)[k]).0 != (
            #[trigger] pairs_view(out@)[l]).0 by {
            assert(idxs[k] < idxs[l]);
            assert(pairs_view(out@)[k].0 == staged.entries()[idxs[k]].name);
            assert(pairs_view(out@)[l].0 == staged.entries()[idxs[l]].name);
        }
        assert forall|k: int| 0 <= k < len1 implies st.contains_key(
            (#[trigger] pairs_view(out@)[k]).0,
        ) by {
            staged.lemma_entries_in_map(idxs[k]);
        }
    }
    let ghost mut jdxs: Seq<int> = Seq::empty();
    let n2 = committed.len();
    let mut j: usize = 0;
    while j < n2
        invariant
            0 <= j <= n2,
            n2 == committed.entries().len(),
            staged.wf(),
            committed.wf(),
            st == staged@,
            co == committed@,
            forall|i2: int, j2: int|
                0 <= i2 < j2 < committed.entries().len() ==> (#[trigger] committed.entries()[
                    i2
                ]).name != (#[trigger] committed.entries()[j2]).name,
            0 <= len1 <= out@.len(),
            out@.len() == pairs_view(out@).len(),
            forall|k: int| 0 <= k < len1 ==> st.contains_key((#[trigger] pairs_view(out@)[k]).0),
            jdxs.len() + len1 == out@.len(),
            forall|k: int, l: int| 0 <= k < l < jdxs.len() ==> jdxs[k] < jdxs[l],
            forall|k: int|
                0 <= k < jdxs.len() ==> 0 <= #[trigger] jdxs[k] < j && pairs_view(out@)[k
                    + len1].0 == committed.entries()[jdxs[k]].name && !st.contains_key(
                    pairs_view(out@)[k + len1].0,
                ),
            forall|k: int|
                0 <= k < pairs_view(out@).len() ==> status_label(
                    st,
                    co,
                    (#[trigger] pairs_view(out@)[k]).0,
                ) == Some(pairs_view(out@)[k].1),
            distinct_pair_keys(pairs_view(out@)),
            forall|n: Seq<char>|
                st.contains_key(n) && status_label(st, co, n) is Some ==> exists|k: int|
                    0 <= k < pairs_view(out@).len() && (#[trigger] pairs_view(out@)[k]).0 == n,
            forall|m: int|
                0 <= m < j && status_label(st, co, (#[trigger] committed.entries()[m]).name) is Some
                    ==> exists|k: int|
                    0 <= k < pairs_view(out@).len() && (#[trigger] pairs_view(out@)[k]).0
                        == committed.entries()[m].name,
        decreases n2 - j,
    {
        let c = committed.index(j);
        proof {
            committed.lemma_entries_in_map(j as int);
        }
        let ghost prev = out@;
        match staged.get(c.get_name()) {
            Some(_) => {
                proof {
                    assert(st.contains_key(committed.entries()[j as int].name));
                    assert forall|m: int|
                        0 <= m < j + 1 && status_label(
                            st,
                            co,
                            (#[trigger] committed.entries()[m]).name,
                        ) is Some implies exists|k: int|
                        0 <= k < pairs_view(out@).len() && (#[trigger] pairs_view(out@)[k]).0
                            == committed.entries()[m].name by {
                        if m < j {
                            assert(j >= 0);
                        }
                    }
                }
            },
            None => {
                out.push((c.get_name().to_owned(), "Removed".to_owned()));
                proof {
                    jdxs = jdxs.push(j as int);
                    assert(forall|k: int| 0 <= k < prev.len() ==> out@[k] == prev[k]);
                    assert(forall|k: int|
                        0 <= k < out@.len() ==> #[trigger] pairs_view(out@)[k] == (
                            out@[k].0@,
                            out@[k].1@,
                        ));
                    assert(forall|k: int|
                        0 <= k < prev.len() ==> #[trigger] pairs_view(prev)[k] == (
                            prev[k].0@,
                            prev[k].1@,
                        ));
                    assert(pairs_view(out@)[prev.len() as int] == (
                        committed.entries()[j as int].name,
                        "Removed"@,
                    ));
                    assert(forall|k: int|
                        0 <= k < prev.len() ==> #[trigger] pairs_view(out@)[k] == pairs_view(
                            prev,
                        )[k]);
                    assert(status_label(st, co, committed.entries()[j as int].name) == Some(
                        "Removed"@,
                    ));
                    assert forall|k: int, l: int|
                        0 <= k < l < pairs_view(out@).len() implies (#[trigger] pairs_view(out@)[
                            k
                        ]).0 != (#[trigger] pairs_view(out@)[l]).0 by {
                        if l == prev.len() {
                            if k < len1 {
                                assert(st.contains_key(pairs_view(out@)[k].0));
                            } else {
                                assert(pairs_view(out@)[k].0 == committed.entries()[
                                    jdxs[k - len1]
                                ].name);
                                assert(jdxs[k - len1] < j);
                            }
                        }
                    }
                    assert forall|m: int|
                        0 <= m < j + 1 && status_label(
                            st,
                            co,
                            (#[trigger] committed.entries()[m]).name,
                        ) is Some implies exists|k: int|
                        0 <= k < pairs_view(out@).len() && (#[trigger] pairs_view(out@)[k]).0
                            == committed.entries()[m].name by {
                        if m < j {
                            let k = choose|k: int|
                                0 <= k < pairs_view(prev).len() && (#[trigger] pairs_view(prev)[
                                    k
                                ]).0 == committed.entries()[m].name;
                            assert(pairs_view(out@)[k].0 == committed.entries()[m].name);
                        } else {
                            assert(pairs_view(out@)[prev.len() as int].0 == committed.entries()[
                                m
                            ].name);
                        }
                    }
                    assert forall|n: Seq<char>|
                        st.contains_key(n) && status_label(st, co, n) is Some implies exists|
                            k: int,
                        |
                            0 <= k < pairs_view(out@).len() && (#[trigger] pairs_view(out@)[k]).0
                                == n by {
                        let k = choose|k: int|
                            0 <= k < pairs_view(prev).len() && (#[trigger] pairs_view(prev)[k]).0
                                == n;
                        assert(pairs_view(out@)[k].0 == n);
                    }
                }
            },
        }
        j += 1;
    }
    proof {
        assert forall|n: Seq<char>| status_label(st, co, n) is Some implies exists|k: int|
            0 <= k < pairs_view(out@).len() && (#[trigger] pairs_view(out@)[k]).0 == n by {
            if st.contains_key(n) {
            } else {
                committed.lemma_map_in_entries(n);
                let m = choose|m: int|
                    0 <= m < committed.entries().len() && (#[trigger] committed.entries()[m]).name
                        == n;
                assert(status_label(st, co, committed.entries()[m].name) is Some);
            }
        }
    }
    out
}

/// The formatted report: each name padded to a column width derived from
/// the longest name, rounded up to the next multiple of eight, plus
/// eight; then its bucket and a line break.
pub open spec fn spaces(n: nat) -> Seq<char> {
    Seq::new(n, |i: int| ' ')
}

/// The length of the longest name among the rows.
pub open spec fn max_name_len(rows: Seq<(Seq<char>, Seq<char>)>) -> nat
    decreases rows.len(),
{
    if rows.len() == 0 {
        0
    } else {
        let rest = max_name_len(rows.drop_last());
        if rows.last().0.len() > rest {
            rows.last().0.len()
        } else {
            rest
        }
    }
}

/// The column width of the report.
pub open spec fn status_padding(rows: Seq<(Seq<char>, Seq<char>)>) -> nat {
    if rows.len() == 0 {
        0
    } else {
        let m = max_name_len(rows);
        (m + (8 - m % 8) + 8) as nat
    }
}

/// One padded report line.
pub open spec fn render_row(row: (Seq<char>, Seq<char>), pad: nat) -> Seq<char> {
    row.0 + spaces(if row.0.len() <= pad {
        (pad - row.0.len()) as nat
    } else {
        0
    }) + row.1 + seq!['\n']
}

/// The report lines, in order, all padded to one width.
pub open spec fn render_rows(rows: Seq<(Seq<char>, Seq<char>)>, pad: nat) -> Seq<char>
    decreases rows.len(),
{
    if rows.len() == 0 {
        Seq::empty()
    } else {
        render_rows(rows.drop_last(), pad) + render_row(rows.last(), pad)
    }
}

/// The whole formatted report.
pub open spec fn status_render(rows: Seq<(Seq<char>, Seq<char>)>) -> Seq<char> {
    render_rows(rows, status_padding(rows))
}

/// Reports what the staging area would change, relative to the
/// committed manifest.
pub struct Status<R: ReadRemote> {
    transport: R,
}

impl<R: ReadRemote> Status<R> {
    /// The transport the command works through.
    pub closed spec fn spec_transport(&self) -> R {
        self.transport
    }

    pub fn new(transport: R) -> (r: Status<R>)
        ensures
            r.spec_transport() == transport,
    {
        Status { transport }
    }

    /// Hands the transport back once the command is done.
    pub fn into_transport(self) -> (r: R)
        ensures
            r == self.spec_transport(),
    {
        self.transport
    }

    /// Computes the report from the repository: the staged manifest, or
    /// the committed one when no staging area exists, against the
    /// committed manifest. A fresh repository reports nothing.
    pub fn status(&self) -> (r: Result<Vec<(String, String)>, Error>)
        requires
            self.spec_transport().inv(),
        ensures
            r matches Ok(v) ==> {
                let files = self.spec_transport().state().files;
                let sb = if files.contains_key(standard_paths().stage.lock) {
                    files[standard_paths().stage.lock]
                } else {
                    files[standard_paths().lock]
                };
                let cb = files[standard_paths().lock];
                &&& files.contains_key(standard_paths().lock)
                &&& !files.contains_key(standard_paths().stage.lock) ==> v@.len() == 0
                &&& distinct_pair_keys(pairs_view(v@))
                &&& forall|a: Seq<VolumeView>, b: Seq<VolumeView>|
                    #![trigger lock_enc(a), lock_enc(b)]
                    distinct_names(a) && distinct_names(b) && sb == lock_enc(a) && cb == lock_enc(
                        b,
                    ) ==> {
                        &&& forall|k: int|
                            0 <= k < pairs_view(v@).len() ==> status_label(
                                entries_map(a),
                                entries_map(b),
                                (#[trigger] pairs_view(v@)[k]).0,
                            ) == Some(pairs_view(v@)[k].1)
                        &&& forall|n: Seq<char>|
                            status_label(entries_map(a), entries_map(b), n) is Some ==> exists|
                                k: int,
                            |
                                0 <= k < pairs_view(v@).len() && (#[trigger] pairs_view(v@)[k]).0
                                    == n
                    }
            },
    {
        let paths = RepositoryStructure::default();
        let cbytes = match self.transport.get_file(paths.get_lock()) {
            Ok(b) => b,
            Err(e) => {
                return Err(e);
            },
        };
        let committed = match Lock::load(&cbytes) {
            Ok(l) => l,
            Err(e) => {
                return Err(e);
            },
        };
        match self.transport.get_file(paths.get_stage().get_lock()) {
            Ok(sbytes) => {
                let staged = match Lock::load(&sbytes) {
                    Ok(l) => l,
                    Err(e) => {
                        return Err(e);
                    },
                };
                Ok(status_volumes(&staged, &committed))
            },
            Err(e) => match e {
                Error::NotFound(_) => {
                    let v = status_volumes(&committed, &committed);
                    proof {
                        lemma_status_fresh(committed@);
                        if v@.len() > 0 {
                            assert(status_label(committed@, committed@, pairs_view(v@)[0].0)
                                is Some);
                        }
                    }
                    Ok(v)
                },
                other => Err(other),
            },
        }
    }
}

/// Renders the report with names padded to one column width.
pub fn print_status(volumes: &Vec<(String, String)>) -> (r: String)
    requires
        max_name_len(pairs_view(volumes@)) + 16 < usize::MAX,
    ensures
        r@ == status_render(pairs_view(volumes@)),
{
    let rows = volumes.len();
    proof {
        assert(forall|k: int|
            0 <= k < volumes@.len() ==> #[trigger] pairs_view(volumes@)[k] == (
                volumes@[k].0@,
                volumes@[k].1@,
            ));
    }
    if rows == 0 {
        let s = String::new();
        proof {
            assert(pairs_view(volumes@).len() == 0);
        }
        return s;
    }
    let mut m: usize = 0;
    let mut i: usize = 0;
    while i < rows
        invariant
            0 <= i <= rows,
            rows == volumes@.len(),
            rows == pairs_view(volumes@).len(),
            forall|k: int|
                0 <= k < volumes@.len() ==> #[trigger] pairs_view(volumes@)[k] == (
                    volumes@[k].0@,
                    volumes@[k].1@,
                ),
            m == max_name_len(pairs_view(volumes@).take(i as int)),
            m <= max_name_len(pairs_view(volumes@)),
        decreases rows - i,
    {
        let l = volumes[i].0.as_str().unicode_len();
        proof {
            assert(pairs_view(volumes@).take(i + 1).drop_last() =~= pairs_view(volumes@).take(
                i as int,
            ));
            lemma_max_name_prefix(pairs_view(volumes@), i + 1);
        }
        if l > m {
            m = l;
        }
        i += 1;
    }
    proof {
        assert(pairs_view(volumes@).take(rows as int) =~= pairs_view(volumes@));
    }
    let pad = m + (8 - m % 8) + 8;
    let mut out = String::new();
    let mut i: usize = 0;
    while i < rows
        invariant
            0 <= i <= rows,
            rows == volumes@.len(),
            rows > 0,
            rows == pairs_view(volumes@).len(),
            forall|k: int|
                0 <= k < volumes@.len() ==> #[trigger] pairs_view(volumes@)[k] == (
                    volumes@[k].0@,
                    volumes@[k].1@,
                ),
            pad == status_padding(pairs_view(volumes@)),
            out@ == render_rows(pairs_view(volumes@).take(i as int), pad as nat),
        decreases rows - i,
    {
        let name = volumes[i].0.as_str();
        let bucket = volumes[i].1.as_str();
        out.append(name);
        let l = name.unicode_len();
        let mut fill: usize = if l <= pad {
            pad - l
        } else {
            0
        };
        let ghost target = spaces(
            if name@.len() <= pad {
                (pad - name@.len()) as nat
            } else {
                0nat
            },
        );
        let ghost base = out@;
        while fill > 0
            invariant
                out@ == base + target.take(target.len() - fill),
                fill <= target.len(),
                forall|k: int| 0 <= k < target.len() ==> target[k] == ' ',
            decreases fill,
        {
            out.append(" ");
            proof {
                reveal_strlit(" ");
                assert(" "@ =~= seq![' ']);
                assert(target[target.len() - fill] == ' ');
                assert(target.take(target.len() - (fill - 1)) =~= target.take(
                    target.len() - fill,
                ).push(' '));
                assert(out@ =~= base + target.take(target.len() - (fill - 1)));
            }
            fill -= 1;
        }
        proof {
            assert(target.take(target.len() as int) =~= target);
        }
        out.append(bucket);
        out.append("\n");
        proof {
            reveal_strlit("\n");
            assert("\n"@ =~= seq!['\n']);
            assert(pairs_view(volumes@).take(i + 1).drop_last() =~= pairs_view(volumes@).take(
                i as int,
            ));
            assert(out@ =~= render_rows(pairs_view(volumes@).take(i + 1), pad as nat));
        }
        i += 1;
    }
    proof {
        assert(pairs_view(volumes@).take(rows as int) =~= pairs_view(volumes@));
    }
    out
}

/// The longest name of a prefix never exceeds the longest name overall.
proof fn lemma_max_name_prefix(rows: Seq<(Seq<char>, Seq<char>)>, i: int)
    requires
        0 <= i <= rows.len(),
    ensures
        max_name_len(rows.take(i)) <= max_name_len(rows),
    decreases rows.len() - i,
{
    if i == rows.len() {
        assert(rows.take(i) =~= rows);
    } else {
        lemma_max_name_prefix(rows, i + 1);
        assert(rows.take(i + 1).drop_last() =~= rows.take(i));
    }
}

} // verus!
