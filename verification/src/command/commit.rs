//! The atomic commit protocol: promoting the staging area into the
//! repository's manifest, audit trail and history.

use vstd::prelude::*;

use crate::error::Error;
use crate::hash::digest_of;
use crate::hash::lemma_hex_ascii;
use crate::hash::lemma_hex_no_slash;
use crate::hash::sha256sum;
use crate::remote::ReadRemote;
use crate::remote::WriteRemote;
use crate::repository::history::append_line;
use crate::repository::history::line_bytes;
use crate::repository::object_store::object_path;
use crate::repository::lemma_standard_path_facts;
use crate::repository::standard_paths;
use crate::repository::RepositoryStructure;
use crate::strutil::bytes_ends_with;
use crate::strutil::ends_with_bytes;
use crate::strutil::is_direct_child;
use crate::strutil::lemma_child_decompose;
use crate::strutil::lemma_direct_child_unique;
use crate::strutil::lemma_join_child;
use crate::strutil::string_concat3;

verus! {

broadcast use vstd::string::group_string_axioms;

/// Whether a path is where a staged object of the pre-state lands in the
/// permanent object store: the only permanent entries a commit may touch.
pub open spec fn moved_object_dest(pre: Map<Seq<char>, Seq<u8>>, q: Seq<char>) -> bool {
    exists|p: Seq<char>|
        pre.contains_key(p) && #[trigger] is_direct_child(standard_paths().stage.objects, p) && q
            == object_path(
            standard_paths().objects,
            p.skip(standard_paths().stage.objects.len() as int + 1),
        )
}

/// What a completed commit leaves behind, given the files before it: the
/// staged manifest becomes the repository manifest; a durable copy of it
/// is archived under its digest; the history gains exactly that digest;
/// the staging manifest is gone; every staged object has moved into the
/// permanent object store; and nothing else has changed — in particular,
/// every permanent object that no staged object lands on is untouched.
pub open spec fn commit_promotes(pre: Map<Seq<char>, Seq<u8>>, post: Map<Seq<char>, Seq<u8>>) -> bool {
    let sp = standard_paths();
    let staged = pre[sp.stage.lock];
    let d = digest_of(staged);
    let ce = object_path(sp.changes, d);
    &&& pre.contains_key(sp.stage.lock)
    &&& pre.contains_key(sp.history)
    &&& post.contains_key(sp.lock) && post[sp.lock] == staged
    &&& post.contains_key(ce) && post[ce] == staged
    &&& post.contains_key(sp.history) && post[sp.history] == pre[sp.history] + line_bytes(d)
    &&& !post.contains_key(sp.stage.lock)
    &&& forall|p: Seq<char>|
        pre.contains_key(p) && #[trigger] is_direct_child(sp.stage.objects, p)
            ==> !post.contains_key(p) && post.contains_key(
            object_path(sp.objects, p.skip(sp.stage.objects.len() as int + 1)),
        ) && post[object_path(sp.objects, p.skip(sp.stage.objects.len() as int + 1))] == pre[p]
    &&& forall|q: Seq<char>|
        #![trigger pre.contains_key(q)]
        #![trigger post.contains_key(q)]
        q != sp.lock && q != sp.stage.lock && q != sp.history && q != ce && !is_direct_child(
            sp.stage.objects,
            q,
        ) && !moved_object_dest(pre, q) ==> (post.contains_key(q) <==> pre.contains_key(q)) && (
        pre.contains_key(q) ==> post[q] == pre[q])
}

/// Whether the audit trail already records the current manifest: its
/// digest archived under the changes directory and standing as the last
/// history line.
pub open spec fn trail_complete(files: Map<Seq<char>, Seq<u8>>) -> bool {
    let sp = standard_paths();
    let d = digest_of(files[sp.lock]);
    let ce = object_path(sp.changes, d);
    &&& files.contains_key(sp.lock)
    &&& files.contains_key(sp.history)
    &&& ends_with_bytes(files[sp.history], line_bytes(d))
    &&& files.contains_key(ce)
    &&& files[ce] == files[sp.lock]
}

/// What a trail repair leaves behind: the archived copy restored, and
/// the digest appended to the history unless it already ends there.
pub open spec fn repair_effect(pre: Map<Seq<char>, Seq<u8>>, post: Map<Seq<char>, Seq<u8>>) -> bool {
    let sp = standard_paths();
    let d = digest_of(pre[sp.lock]);
    let ce = object_path(sp.changes, d);
    &&& pre.contains_key(sp.lock)
    &&& pre.contains_key(sp.history)
    &&& if ends_with_bytes(pre[sp.history], line_bytes(d)) {
        post == pre.insert(ce, pre[sp.lock])
    } else {
        post == pre.insert(ce, pre[sp.lock]).insert(sp.history, pre[sp.history] + line_bytes(d))
    }
}

/// The law of the commit: committing a staged manifest leaves exactly its
/// document at the manifest path, so reading the repository manifest
/// yields the staged manifest back, and the history gains exactly one
/// entry: the digest of that document.
pub proof fn lemma_commit_reads_back(
    pre: Map<Seq<char>, Seq<u8>>,
    post: Map<Seq<char>, Seq<u8>>,
    es: Seq<crate::volume::VolumeView>,
)
    requires
        crate::repository::lock::distinct_names(es),
        pre.contains_key(standard_paths().stage.lock),
        pre[standard_paths().stage.lock] == crate::repository::lock::lock_enc(es),
        commit_promotes(pre, post),
    ensures
        post.contains_key(standard_paths().lock),
        post[standard_paths().lock] == crate::repository::lock::lock_enc(es),
        post.contains_key(standard_paths().history),
        post[standard_paths().history] == pre[standard_paths().history] + line_bytes(
            digest_of(crate::repository::lock::lock_enc(es)),
        ),
{
}

/// Promotes the staging area: the one transition from Staged to Clean.
///
/// The staging manifest is renamed onto the manifest path first and
/// atomically; every later step is idempotent, so an interrupted commit
/// leaves a Clean repository whose trail a re-run repairs. A re-run with
/// nothing to stage and nothing to repair is a conflict.
pub struct Commit<R: WriteRemote> {
    transport: R,
}

impl<R: WriteRemote> Commit<R> {
    /// The transport the command works through.
    pub closed spec fn spec_transport(&self) -> R {
        self.transport
    }

    pub fn new(transport: R) -> (r: Commit<R>)
        ensures
            r.spec_transport() == transport,
    {
        Commit { transport }
    }

    /// Hands the transport back once the command is done.
    pub fn into_transport(self) -> (r: R)
        ensures
            r == self.spec_transport(),
    {
        self.transport
    }

    /// Commits staged changes; with no staging area, repairs the audit
    /// trail of the last commit instead, and reports a conflict when
    /// there is nothing to stage and nothing to repair.
    pub fn commit(&mut self) -> (r: Result<(), Error>)
        requires
            old(self).spec_transport().inv(),
        ensures
            final(self).spec_transport().inv(),
            final(self).spec_transport().state().dirs == old(self).spec_transport().state().dirs,
            r is Ok && old(self).spec_transport().state().files.contains_key(
                standard_paths().stage.lock,
            ) ==> commit_promotes(
                old(self).spec_transport().state().files,
                final(self).spec_transport().state().files,
            ),
            r is Ok && !old(self).spec_transport().state().files.contains_key(
                standard_paths().stage.lock,
            ) ==> repair_effect(
                old(self).spec_transport().state().files,
                final(self).spec_transport().state().files,
            ),
            r matches Err(Error::Conflict(_)) ==> final(self).spec_transport().state() == old(self).spec_transport().state() && !old(self).spec_transport().state().files.contains_key(
                standard_paths().stage.lock,
            ) && (old(self).spec_transport().state().files.contains_key(standard_paths().lock)
                ==> trail_complete(old(self).spec_transport().state().files)),
            !old(self).spec_transport().state().files.contains_key(standard_paths().stage.lock)
                && (!old(self).spec_transport().state().files.contains_key(standard_paths().lock)
                || trail_complete(old(self).spec_transport().state().files)) ==> (r matches Err(e)
                && (e matches Error::Conflict(_) || e matches Error::IOFailure(_))) && final(self).spec_transport().state() == old(self).spec_transport().state(),
            old(self).spec_transport().state().files.contains_key(standard_paths().history)
                ==> final(self).spec_transport().state().files.contains_key(
                standard_paths().history,
            ) && (final(self).spec_transport().state().files[standard_paths().history] == old(self).spec_transport().state().files[standard_paths().history] || (final(self).spec_transport().state().files.contains_key(standard_paths().lock) && final(self).spec_transport().state().files[standard_paths().history] == old(self).spec_transport().state().files[standard_paths().history] + line_bytes(
                digest_of(final(self).spec_transport().state().files[standard_paths().lock]),
            ))),
            !old(self).spec_transport().state().files.contains_key(standard_paths().history)
                ==> !final(self).spec_transport().state().files.contains_key(
                standard_paths().history,
            ),
    {
        let paths = RepositoryStructure::default();
        let ghost f0 = old(self).spec_transport().state().files;
        proof {
            lemma_standard_path_facts();
        }
        match self.transport.rename(paths.get_stage().get_lock(), paths.get_lock()) {
            Ok(_) => {},
            Err(e) => match e {
                Error::NotFound(_) => {
                    return self.repair_trail();
                },
                other => {
                    return Err(other);
                },
            },
        }
        // The staged manifest is now the repository manifest.
        let lock_bytes = match self.transport.get_file(paths.get_lock()) {
            Ok(b) => b,
            Err(e) => {
                return Err(e);
            },
        };
        let digest = sha256sum(&lock_bytes);
        let ghost staged = f0[standard_paths().stage.lock];
        let ghost d = digest_of(staged);
        let changes_entry = string_concat3(paths.get_changes(), "/", digest.as_str());
        proof {
            lemma_standard_path_facts();
            lemma_hex_no_slash(crate::hash::sha256_of(lock_bytes@));
            assert(d == digest@ && d.len() == 64 && !d.contains('/'));
            lemma_join_child(standard_paths().changes, d);
            assert(changes_entry@ == object_path(standard_paths().changes, d));
            assert(object_path(standard_paths().changes, d).len() == 84);
            assert(standard_paths().history != standard_paths().lock);
            assert(standard_paths().history != standard_paths().stage.lock);
            assert(standard_paths().history != object_path(standard_paths().changes, d));
        }
        match self.transport.copy(paths.get_lock(), changes_entry.as_str()) {
            Ok(_) => {},
            Err(e) => {
                return Err(e);
            },
        }
        let mut history = match self.transport.get_file(paths.get_history()) {
            Ok(b) => b,
            Err(e) => {
                return Err(e);
            },
        };
        proof {
            lemma_standard_path_facts();
            lemma_hex_ascii(crate::hash::sha256_of(lock_bytes@));
            lemma_join_child(standard_paths().changes, d);
            assert(history@ == f0[standard_paths().history]);
        }
        append_line(&mut history, digest.as_str());
        match self.transport.put_file(paths.get_history(), history.as_slice()) {
            Ok(_) => {},
            Err(e) => {
                return Err(e);
            },
        }
        // Move every staged object into the permanent object store.
        let ghost base = self.spec_transport().state().files;
        let staged_objects = match self.transport.read_dir(paths.get_stage().get_objects()) {
            Ok(v) => v,
            Err(e) => {
                return Err(e);
            },
        };
        let ghost names = staged_objects.deep_view();
        let ghost sp = standard_paths();
        proof {
            lemma_standard_path_facts();
            lemma_join_child(sp.changes, d);
            assert forall|p: Seq<char>|
                is_direct_child(sp.stage.objects, p) implies (base.contains_key(p)
                <==> f0.contains_key(p)) && (f0.contains_key(p) ==> base[p] == f0[p]) by {
                if p == object_path(sp.changes, d) {
                    lemma_join_child(sp.changes, d);
                    lemma_direct_child_unique(sp.stage.objects, sp.changes, p);
                }
            }
        }
        let so_len = paths.get_stage().get_objects().unicode_len();
        let objects_dir = paths.get_objects();
        let n = staged_objects.len();
        let mut i: usize = 0;
        while i < n
            invariant
                0 <= i <= n,
                n == staged_objects@.len(),
                n == names.len(),
                names == staged_objects.deep_view(),
                so_len == sp.stage.objects.len(),
                sp == standard_paths(),
                objects_dir@ == sp.objects,
                sp.stage.objects == ".volumetric/staging/objects"@,
                sp.stage.objects.len() == 27,
                sp.objects.len() == 19,
                sp.objects != sp.stage.objects,
                self.spec_transport().inv(),
                self.spec_transport().state().dirs == old(self).spec_transport().state().dirs,
                f0 == old(self).spec_transport().state().files,
                f0.contains_key(sp.stage.lock),
                f0.contains_key(sp.history),
                forall|k: int, l: int| 0 <= k < l < names.len() ==> names[k] != names[l],
                forall|k: int|
                    0 <= k < names.len() ==> is_direct_child(
                        sp.stage.objects,
                        #[trigger] names[k],
                    ) && f0.contains_key(names[k]),
                forall|p: Seq<char>|
                    f0.contains_key(p) && #[trigger] is_direct_child(sp.stage.objects, p)
                        ==> names.contains(p),
                forall|k: int|
                    i <= k < names.len() ==> self.spec_transport().state().files.contains_key(
                        #[trigger] names[k],
                    ) && self.spec_transport().state().files[names[k]] == f0[names[k]],
                forall|k: int|
                    0 <= k < i ==> !self.spec_transport().state().files.contains_key(
                        #[trigger] names[k],
                    ) && self.spec_transport().state().files.contains_key(
                        object_path(sp.objects, names[k].skip(28)),
                    ) && self.spec_transport().state().files[object_path(
                        sp.objects,
                        names[k].skip(28),
                    )] == f0[names[k]],
                self.spec_transport().state().files.contains_key(sp.lock),
                self.spec_transport().state().files[sp.lock] == f0[sp.stage.lock],
                self.spec_transport().state().files.contains_key(object_path(sp.changes, d)),
                self.spec_transport().state().files[object_path(sp.changes, d)] == f0[sp.stage.lock],
                self.spec_transport().state().files.contains_key(sp.history),
                self.spec_transport().state().files[sp.history] == f0[sp.history] + line_bytes(d),
                !self.spec_transport().state().files.contains_key(sp.stage.lock),
                d == digest_of(f0[sp.stage.lock]),
                !d.contains('/'),
                d.len() == 64,
                forall|q: Seq<char>|
                    #![trigger f0.contains_key(q)]
                    #![trigger self.spec_transport().state().files.contains_key(q)]
                    q != sp.lock && q != sp.stage.lock && q != sp.history && q != object_path(
                        sp.changes,
                        d,
                    ) && !is_direct_child(sp.stage.objects, q) && !(exists|k: int|
                        0 <= k < names.len() && q == object_path(
                            sp.objects,
                            #[trigger] names[k].skip(28),
                        )) ==> (self.spec_transport().state().files.contains_key(q)
                        <==> f0.contains_key(q)) && (f0.contains_key(q)
                        ==> self.spec_transport().state().files[q] == f0[q]),
            decreases n - i,
        {
            let p = &staged_objects[i];
            let p_len = p.as_str().unicode_len();
            proof {
                lemma_standard_path_facts();
                assert(names[i as int] == p@);
                assert(is_direct_child(sp.stage.objects, p@));
                lemma_child_decompose(sp.stage.objects, p@);
            }
            let suffix = p.as_str().substring_char(so_len + 1, p_len);
            let dest = string_concat3(objects_dir, "/", suffix);
            proof {
                lemma_standard_path_facts();
                assert(suffix@ == p@.skip(28));
                lemma_join_child(sp.objects, suffix@);
                assert(dest@ == object_path(sp.objects, names[i as int].skip(28)));
                assert(is_direct_child(sp.objects, dest@));
                if is_direct_child(sp.stage.objects, dest@) {
                    lemma_direct_child_unique(sp.objects, sp.stage.objects, dest@);
                }
                assert(!is_direct_child(sp.stage.objects, dest@));
                if dest@ == object_path(sp.changes, d) {
                    lemma_join_child(sp.changes, d);
                    lemma_direct_child_unique(sp.objects, sp.changes, dest@);
                }
                assert(dest@ != object_path(sp.changes, d));
                assert(dest@.len() >= 21);
                assert(dest@ != sp.lock && dest@ != sp.history);
                assert(dest@ != sp.stage.lock);
                assert(p@.len() >= 29);
                assert(p@ != sp.lock && p@ != sp.history && p@ != sp.stage.lock);
                if p@ == object_path(sp.changes, d) {
                    lemma_join_child(sp.changes, d);
                    lemma_direct_child_unique(sp.stage.objects, sp.changes, p@);
                }
                assert(p@ != object_path(sp.changes, d));
            }
            match self.transport.rename(p.as_str(), dest.as_str()) {
                Ok(_) => {},
                Err(e) => {
                    return Err(e);
                },
            }
            proof {
                lemma_standard_path_facts();
                assert forall|k: int| 0 <= k < i + 1 implies !self.spec_transport().state().files.contains_key(
                    #[trigger] names[k],
                ) && self.spec_transport().state().files.contains_key(
                    object_path(sp.objects, names[k].skip(28)),
                ) && self.spec_transport().state().files[object_path(sp.objects, names[k].skip(28))]
                    == f0[names[k]] by {
                    if k < i {
                        lemma_child_decompose(sp.stage.objects, names[k]);
                        lemma_join_child(sp.objects, names[k].skip(28));
                        if object_path(sp.objects, names[k].skip(28)) == dest@ {
                            assert(names[k].skip(28) =~= suffix@);
                            assert(names[k] =~= names[i as int]);
                        }
                        if is_direct_child(
                            sp.stage.objects,
                            object_path(sp.objects, names[k].skip(28)),
                        ) {
                            lemma_direct_child_unique(
                                sp.objects,
                                sp.stage.objects,
                                object_path(sp.objects, names[k].skip(28)),
                            );
                        }
                    }
                }
                assert forall|k: int| i + 1 <= k < names.len() implies self.spec_transport().state().files.contains_key(
                    #[trigger] names[k],
                ) && self.spec_transport().state().files[names[k]] == f0[names[k]] by {
                    if names[k] == dest@ {
                        lemma_direct_child_unique(sp.stage.objects, sp.objects, names[k]);
                    }
                }
                lemma_join_child(sp.objects, suffix@);
            }
            i += 1;
        }
        proof {
            lemma_standard_path_facts();
            lemma_join_child(sp.changes, d);
            assert forall|p: Seq<char>|
                f0.contains_key(p) && #[trigger] is_direct_child(
                    sp.stage.objects,
                    p,
                ) implies !self.spec_transport().state().files.contains_key(p)
                && self.spec_transport().state().files.contains_key(
                object_path(sp.objects, p.skip(sp.stage.objects.len() as int + 1)),
            ) && self.spec_transport().state().files[object_path(
                sp.objects,
                p.skip(sp.stage.objects.len() as int + 1),
            )] == f0[p] by {
                let k = choose|k: int| 0 <= k < names.len() && names[k] == p;
            }
            assert forall|q: Seq<char>|
                q != sp.lock && q != sp.stage.lock && q != sp.history && q != object_path(
                    sp.changes,
                    d,
                ) && !is_direct_child(sp.stage.objects, q) && !moved_object_dest(
                    f0,
                    q,
                ) implies (self.spec_transport().state().files.contains_key(q)
                <==> f0.contains_key(q)) && (f0.contains_key(q)
                ==> self.spec_transport().state().files[q] == f0[q]) by {
                if exists|k: int|
                    0 <= k < names.len() && q == object_path(
                        sp.objects,
                        #[trigger] names[k].skip(28),
                    ) {
                    let k = choose|k: int|
                        0 <= k < names.len() && q == object_path(
                            sp.objects,
                            #[trigger] names[k].skip(28),
                        );
                    assert(is_direct_child(sp.stage.objects, names[k]));
                    assert(moved_object_dest(f0, q));
                }
            }
            assert(commit_promotes(f0, self.spec_transport().state().files));
        }
        Ok(())
    }

    /// Repairs the audit trail of the last commit: restores the archived
    /// manifest copy and appends the missing history line; a trail that
    /// needs nothing is a conflict, and so is a repository with no
    /// manifest at all.
    fn repair_trail(&mut self) -> (r: Result<(), Error>)
        requires
            old(self).spec_transport().inv(),
            !old(self).spec_transport().state().files.contains_key(standard_paths().stage.lock),
        ensures
            final(self).spec_transport().inv(),
            final(self).spec_transport().state().dirs == old(self).spec_transport().state().dirs,
            r is Ok ==> repair_effect(
                old(self).spec_transport().state().files,
                final(self).spec_transport().state().files,
            ),
            r matches Err(Error::Conflict(_)) ==> final(self).spec_transport().state() == old(self).spec_transport().state() && (old(self).spec_transport().state().files.contains_key(
                standard_paths().lock,
            ) ==> trail_complete(old(self).spec_transport().state().files)),
            (!old(self).spec_transport().state().files.contains_key(standard_paths().lock)
                || trail_complete(old(self).spec_transport().state().files)) ==> (r matches Err(e)
                && (e matches Error::Conflict(_) || e matches Error::IOFailure(_))) && final(self).spec_transport().state() == old(self).spec_transport().state(),
            old(self).spec_transport().state().files.contains_key(standard_paths().history)
                ==> final(self).spec_transport().state().files.contains_key(
                standard_paths().history,
            ) && (final(self).spec_transport().state().files[standard_paths().history] == old(self).spec_transport().state().files[standard_paths().history] || (final(self).spec_transport().state().files.contains_key(standard_paths().lock) && final(self).spec_transport().state().files[standard_paths().history] == old(self).spec_transport().state().files[standard_paths().history] + line_bytes(
                digest_of(final(self).spec_transport().state().files[standard_paths().lock]),
            ))),
            !old(self).spec_transport().state().files.contains_key(standard_paths().history)
                ==> !final(self).spec_transport().state().files.contains_key(
                standard_paths().history,
            ),
    {
        let paths = RepositoryStructure::default();
        let ghost f0 = old(self).spec_transport().state().files;
        let ghost sp = standard_paths();
        let lock_bytes = match self.transport.get_file(paths.get_lock()) {
            Ok(b) => b,
            Err(e) => match e {
                Error::NotFound(s) => {
                    return Err(Error::Conflict(s));
                },
                other => {
                    return Err(other);
                },
            },
        };
        let digest = sha256sum(&lock_bytes);
        let ghost d = digest_of(f0[sp.lock]);
        let changes_entry = string_concat3(paths.get_changes(), "/", digest.as_str());
        proof {
            lemma_standard_path_facts();
            lemma_hex_no_slash(crate::hash::sha256_of(lock_bytes@));
            lemma_hex_ascii(crate::hash::sha256_of(lock_bytes@));
            lemma_join_child(sp.changes, d);
            assert(changes_entry@ == object_path(sp.changes, d));
        }
        let history = match self.transport.get_file(paths.get_history()) {
            Ok(b) => b,
            Err(e) => {
                return Err(e);
            },
        };
        let mut line: Vec<u8> = Vec::new();
        append_line(&mut line, digest.as_str());
        proof {
            lemma_standard_path_facts();
            assert(line@ =~= line_bytes(d));
            assert(history@ == f0[sp.history]);
        }
        let history_done = bytes_ends_with(&history, &line);
        let archive_done = match self.transport.get_file(changes_entry.as_str()) {
            Ok(b) => crate::strutil::bytes_eq(&b, &lock_bytes),
            Err(e) => match e {
                Error::NotFound(_) => false,
                other => {
                    return Err(other);
                },
            },
        };
        if history_done && archive_done {
            return Err(Error::Conflict(digest));
        }
        match self.transport.copy(paths.get_lock(), changes_entry.as_str()) {
            Ok(_) => {},
            Err(e) => {
                return Err(e);
            },
        }
        if !history_done {
            let mut new_history = history;
            append_line(&mut new_history, digest.as_str());
            match self.transport.put_file(paths.get_history(), new_history.as_slice()) {
                Ok(_) => {},
                Err(e) => {
                    return Err(e);
                },
            }
            proof {
                lemma_standard_path_facts();
                lemma_join_child(sp.changes, d);
                assert(object_path(sp.changes, d).len() == 84);
                assert(new_history@ =~= f0[sp.history] + line_bytes(d));
            }
        }
        Ok(())
    }
}

} // verus!
