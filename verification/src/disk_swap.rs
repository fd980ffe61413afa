//! Swapping a VM's files for those of a snapshot bundle, with a backup that
//! a rollback puts back.
//!
//! The swap itself moves files; this module decides which files take part,
//! in what order they move, what the swap has done so far, and what a
//! rollback must undo. A directory is modelled as a map from file names to
//! file identities.
use crate::text::{contains_text, owned_text, texts};
use vstd::prelude::*;

verus! {

/// The files of a directory, by name.
pub type Files = Map<Seq<char>, int>;

/// A directory, its backup, the names moved to the backup and the names
/// installed, in order.
pub type SwapState = (Files, Files, Seq<Seq<char>>, Seq<Seq<char>>);

/// The two files of a bundle that are not VM resources.
pub open spec fn is_capture_file(name: Seq<char>) -> bool {
    name == "state.bin"@ || name == "memory.bin"@
}

/// The bundle's files that become VM resources, in order.
pub open spec fn bundle_names(files: Seq<Seq<char>>) -> Seq<Seq<char>>
    decreases files.len(),
{
    if files.len() == 0 {
        seq![]
    } else if is_capture_file(files.last()) {
        bundle_names(files.drop_last())
    } else {
        bundle_names(files.drop_last()).push(files.last())
    }
}

/// Optional VM files that a restore always clears away.
pub open spec fn optional_names() -> Seq<Seq<char>> {
    seq!["initrd"@, "seed.ext4"@, "oci-init-version"@, "egress-bootstrap"@]
}

pub open spec fn missing_from(names: Seq<Seq<char>>, extra: Seq<Seq<char>>) -> Seq<Seq<char>>
    decreases extra.len(),
{
    if extra.len() == 0 {
        seq![]
    } else if names.contains(extra.last()) {
        missing_from(names, extra.drop_last())
    } else {
        missing_from(names, extra.drop_last()).push(extra.last())
    }
}

/// The files a restore manages: the bundle's resources, then the optional
/// files the bundle does not hold.
pub open spec fn managed_names(names: Seq<Seq<char>>) -> Seq<Seq<char>> {
    names + missing_from(names, optional_names())
}

/// A step of the swap: move a present file to the backup, or install a
/// bundle file in its place.
#[derive(Clone, Debug)]
pub enum SwapStep {
    Backup(String),
    Install(String),
}

pub open spec fn step_view(step: SwapStep) -> (bool, Seq<char>) {
    match step {
        SwapStep::Backup(n) => (false, n@),
        SwapStep::Install(n) => (true, n@),
    }
}

pub open spec fn steps_view(steps: Seq<SwapStep>) -> Seq<(bool, Seq<char>)> {
    steps.map_values(|s: SwapStep| step_view(s))
}

/// Backups of the managed files that are present, in order.
pub open spec fn backup_steps(managed: Seq<Seq<char>>, present: Seq<bool>) -> Seq<(bool, Seq<char>)>
    decreases managed.len(),
{
    if managed.len() == 0 || present.len() != managed.len() {
        seq![]
    } else if present.last() {
        backup_steps(managed.drop_last(), present.drop_last()).push((false, managed.last()))
    } else {
        backup_steps(managed.drop_last(), present.drop_last())
    }
}

pub open spec fn install_steps(names: Seq<Seq<char>>) -> Seq<(bool, Seq<char>)> {
    names.map_values(|n: Seq<char>| (true, n))
}

/// The swap: first every present managed file goes to the backup, then
/// every bundle resource is installed.
pub open spec fn swap_plan(managed: Seq<Seq<char>>, present: Seq<bool>, names: Seq<Seq<char>>) -> Seq<
    (bool, Seq<char>),
> {
    backup_steps(managed, present) + install_steps(names)
}

/// The effect of one step on a swap state; `staged` holds the bundle files.
pub open spec fn apply_step(s: SwapState, staged: Files, step: (bool, Seq<char>)) -> SwapState {
    let n = step.1;
    if step.0 {
        (s.0.insert(n, staged[n]), s.1, s.2, s.3.push(n))
    } else {
        (s.0.remove(n), s.1.insert(n, s.0[n]), s.2.push(n), s.3)
    }
}

pub open spec fn run_steps(s: SwapState, staged: Files, steps: Seq<(bool, Seq<char>)>) -> SwapState
    decreases steps.len(),
{
    if steps.len() == 0 {
        s
    } else {
        apply_step(run_steps(s, staged, steps.drop_last()), staged, steps.last())
    }
}

/// Removing the installed files; a file that is already gone is no error.
pub open spec fn remove_all(dir: Files, names: Seq<Seq<char>>) -> Files
    decreases names.len(),
{
    if names.len() == 0 {
        dir
    } else {
        remove_all(dir, names.drop_last()).remove(names.last())
    }
}

/// Moving the backed-up files back, the last one first.
pub open spec fn restore_from_last(dir: Files, backup: Files, old: Seq<Seq<char>>) -> (Files, Files)
    decreases old.len(),
{
    if old.len() == 0 {
        (dir, backup)
    } else {
        let n = old.last();
        restore_from_last(dir.insert(n, backup[n]), backup.remove(n), old.drop_last())
    }
}

/// A rollback: remove what was installed, then bring back what was moved.
pub open spec fn undo(s: SwapState) -> (Files, Files) {
    restore_from_last(remove_all(s.0, s.3), s.1, s.2)
}

/// What a swap has done so far.
pub struct DiskSwap {
    old: Vec<String>,
    new: Vec<String>,
}

impl DiskSwap {
    /// Names moved to the backup, in order.
    pub closed spec fn backed_up(&self) -> Seq<Seq<char>> {
        texts(self.old@)
    }

    /// Names installed, in order.
    pub closed spec fn installed(&self) -> Seq<Seq<char>> {
        texts(self.new@)
    }

    /// The resources of a bundle with files `files`, the files a restore
    /// manages for them, and the steps of the swap given which managed files
    /// are `present`, together with a swap that has done nothing yet.
    pub fn install(files: &[String]) -> (r: (DiskSwap, Vec<String>, Vec<String>))
        ensures
            r.0.backed_up() == Seq::<Seq<char>>::empty(),
            r.0.installed() == Seq::<Seq<char>>::empty(),
            texts(r.1@) == bundle_names(texts(files@)),
            texts(r.2@) == managed_names(bundle_names(texts(files@))),
    {
        let names = bundle_resources(files);
        let managed = managed_resources(&names);
        let swap = DiskSwap { old: Vec::new(), new: Vec::new() };
        assert(texts(swap.old@) =~= Seq::<Seq<char>>::empty());
        (swap, names, managed)
    }

    /// Records a step that was carried out.
    pub fn record(&mut self, step: &SwapStep)
        ensures
            match step_view(*step) {
                (false, n) => final(self).backed_up() == old(self).backed_up().push(n)
                    && final(self).installed() == old(self).installed(),
                (true, n) => final(self).installed() == old(self).installed().push(n)
                    && final(self).backed_up() == old(self).backed_up(),
            },
    {
        match step {
            SwapStep::Backup(n) => {
                let ghost before = self.old@;
                self.old.push(n.clone());
                assert(texts(self.old@) =~= texts(before).push(n@));
            },
            SwapStep::Install(n) => {
                let ghost before = self.new@;
                self.new.push(n.clone());
                assert(texts(self.new@) =~= texts(before).push(n@));
            },
        }
    }
}


impl DiskSwap {
    /// The steps of the swap, given which managed files are present
    /// (`present[i]` for `managed[i]`).
    pub fn plan(managed: &[String], present: &[bool], names: &[String]) -> (r: Vec<SwapStep>)
        requires
            present.len() == managed.len(),
        ensures
            steps_view(r@) == swap_plan(texts(managed@), present@, texts(names@)),
    {
        let mut steps: Vec<SwapStep> = Vec::new();
        let mut i: usize = 0;
        proof {
            assert(texts(managed@).take(0) =~= Seq::<Seq<char>>::empty());
            assert(steps_view(steps@) =~= backup_steps(texts(managed@).take(0), present@.take(0)));
        }
        while i < managed.len()
            invariant
                i <= managed.len(),
                present.len() == managed.len(),
                steps_view(steps@) == backup_steps(texts(managed@).take(i as int), present@.take(i as int)),
            decreases managed.len() - i,
        {
            let ghost m = texts(managed@).take(i + 1);
            let ghost p = present@.take(i + 1);
            assert(m.drop_last() =~= texts(managed@).take(i as int));
            assert(p.drop_last() =~= present@.take(i as int));
            assert(m.last() == managed@[i as int]@);
            let ghost before = steps@;
            if present[i] {
                steps.push(SwapStep::Backup(managed[i].clone()));
                assert(steps_view(steps@) =~= steps_view(before).push((false, managed@[i as int]@)));
            }
            i += 1;
        }
        assert(texts(managed@).take(i as int) =~= texts(managed@));
        assert(present@.take(i as int) =~= present@);
        let ghost backups = steps_view(steps@);
        let mut k: usize = 0;
        assert(backups + install_steps(texts(names@).take(0)) =~= backups);
        while k < names.len()
            invariant
                k <= names.len(),
                steps_view(steps@) == backups + install_steps(texts(names@).take(k as int)),
            decreases names.len() - k,
        {
            let ghost before = steps@;
            steps.push(SwapStep::Install(names[k].clone()));
            assert(install_steps(texts(names@).take(k + 1)) =~= install_steps(
                texts(names@).take(k as int),
            ).push((true, names@[k as int]@)));
            assert(steps_view(steps@) =~= steps_view(before).push((true, names@[k as int]@)));
            k += 1;
        }
        assert(texts(names@).take(k as int) =~= texts(names@));
        steps
    }

    /// A rollback: the installed names, to remove, and the backed-up names,
    /// to bring back in the order given (the last one moved comes back
    /// first). The swap is left with nothing to undo.
    pub fn rollback(&mut self) -> (r: (Vec<String>, Vec<String>))
        ensures
            texts(r.0@) == old(self).installed(),
            texts(r.1@).len() == old(self).backed_up().len(),
            forall|i: int|
                0 <= i < texts(r.1@).len() ==> #[trigger] texts(r.1@)[i] == old(self).backed_up()[old(
                    self,
                ).backed_up().len() - 1 - i],
            final(self).installed() == Seq::<Seq<char>>::empty(),
            final(self).backed_up() == Seq::<Seq<char>>::empty(),
    {
        let mut removals: Vec<String> = Vec::new();
        std::mem::swap(&mut removals, &mut self.new);
        let mut restorations: Vec<String> = Vec::new();
        let n = self.old.len();
        while self.old.len() > 0
            invariant
                self.old.len() <= n,
                n == old(self).old.len(),
                self.new@.len() == 0,
                removals@ == old(self).new@,
                self.old@ == old(self).old@.take(self.old.len() as int),
                restorations.len() == n - self.old.len(),
                forall|i: int|
                    0 <= i < restorations.len() ==> #[trigger] restorations@[i] == old(self).old@[n - 1 - i],
            decreases self.old.len(),
        {
            let ghost before = self.old@;
            let name = self.old.pop().unwrap();
            assert(self.old@ =~= old(self).old@.take(self.old.len() as int));
            restorations.push(name);
        }
        assert(texts(self.old@) =~= Seq::<Seq<char>>::empty());
        assert(texts(self.new@) =~= Seq::<Seq<char>>::empty());
        assert(texts(removals@) =~= texts(old(self).new@));
        (removals, restorations)
    }
}

/// The bundle's files that become VM resources (see `bundle_names`).
pub fn bundle_resources(files: &[String]) -> (r: Vec<String>)
    ensures
        texts(r@) == bundle_names(texts(files@)),
{
    let state = owned_text("state.bin");
    let memory = owned_text("memory.bin");
    let mut r: Vec<String> = Vec::new();
    let mut i: usize = 0;
    assert(texts(files@).take(0) =~= Seq::<Seq<char>>::empty());
    while i < files.len()
        invariant
            i <= files.len(),
            state@ == "state.bin"@,
            memory@ == "memory.bin"@,
            texts(r@) == bundle_names(texts(files@).take(i as int)),
        decreases files.len() - i,
    {
        let ghost t = texts(files@).take(i + 1);
        assert(t.drop_last() =~= texts(files@).take(i as int));
        assert(t.last() == files@[i as int]@);
        if !(files[i] == state || files[i] == memory) {
            let ghost before = r@;
            r.push(files[i].clone());
            assert(texts(r@) =~= texts(before).push(files@[i as int]@));
        }
        i += 1;
    }
    assert(texts(files@).take(i as int) =~= texts(files@));
    r
}

/// The files a restore manages (see `managed_names`).
pub fn managed_resources(names: &[String]) -> (r: Vec<String>)
    ensures
        texts(r@) == managed_names(texts(names@)),
{
    let mut r: Vec<String> = Vec::new();
    let mut i: usize = 0;
    while i < names.len()
        invariant
            i <= names.len(),
            texts(r@) == texts(names@).take(i as int),
        decreases names.len() - i,
    {
        let ghost before = r@;
        r.push(names[i].clone());
        assert(texts(r@) =~= texts(before).push(names@[i as int]@));
        assert(texts(names@).take(i + 1) =~= texts(names@).take(i as int).push(names@[i as int]@));
        i += 1;
    }
    assert(texts(names@).take(i as int) =~= texts(names@));
    let extra = [
        owned_text("initrd"),
        owned_text("seed.ext4"),
        owned_text("oci-init-version"),
        owned_text("egress-bootstrap"),
    ];
    assert(texts(extra@) =~= optional_names());
    let ghost head = texts(r@);
    let mut k: usize = 0;
    assert(head + missing_from(texts(names@), texts(extra@).take(0)) =~= head);
    while k < 4
        invariant
            k <= 4,
            extra@.len() == 4,
            head == texts(names@),
            texts(r@) == head + missing_from(texts(names@), texts(extra@).take(k as int)),
        decreases 4 - k,
    {
        let ghost t = texts(extra@).take(k + 1);
        assert(t.drop_last() =~= texts(extra@).take(k as int));
        assert(t.last() == extra@[k as int]@);
        if !contains_text(names, &extra[k]) {
            let ghost before = r@;
            r.push(extra[k].clone());
            assert(texts(r@) =~= texts(before).push(extra@[k as int]@));
        }
        k += 1;
    }
    assert(texts(extra@).take(4) =~= texts(extra@));
    r
}


// ---------------------------------------------------------------------------
// Rollback puts everything back
proof fn lemma_contains_last<A>(s: Seq<A>, x: A)
    requires
        s.len() > 0,
    ensures
        s.contains(x) <==> s.drop_last().contains(x) || x == s.last(),
{
    assert(s =~= s.drop_last().push(s.last()));
    vstd::seq_lib::lemma_seq_contains_after_push(s.drop_last(), s.last(), x);
}

proof fn lemma_remove_all(dir: Files, names: Seq<Seq<char>>)
    ensures
        forall|x: Seq<char>|
            #[trigger] remove_all(dir, names).dom().contains(x) <==> dir.dom().contains(x)
                && !names.contains(x),
        forall|x: Seq<char>|
            #[trigger] remove_all(dir, names).dom().contains(x) ==> remove_all(dir, names)[x]
                == dir[x],
    decreases names.len(),
{
    if names.len() > 0 {
        let rest = remove_all(dir, names.drop_last());
        lemma_remove_all(dir, names.drop_last());
        assert(remove_all(dir, names) == rest.remove(names.last()));
        assert forall|x: Seq<char>|
            #[trigger] remove_all(dir, names).dom().contains(x) <==> dir.dom().contains(x)
                && !names.contains(x) by {
            lemma_contains_last(names, x);
            assert(rest.dom().contains(x) <==> dir.dom().contains(x) && !names.drop_last().contains(
                x,
            ));
        }
        assert forall|x: Seq<char>| #[trigger]
            remove_all(dir, names).dom().contains(x) implies remove_all(dir, names)[x] == dir[x] by {
            assert(rest.dom().contains(x));
        }
    }
}

proof fn lemma_restore(dir: Files, backup: Files, old: Seq<Seq<char>>)
    requires
        old.no_duplicates(),
        forall|i: int| 0 <= i < old.len() ==> backup.dom().contains(#[trigger] old[i]),
    ensures
        forall|x: Seq<char>|
            #[trigger] restore_from_last(dir, backup, old).0.dom().contains(x) <==> dir.dom().contains(
                x,
            ) || old.contains(x),
        forall|x: Seq<char>|
            #[trigger] restore_from_last(dir, backup, old).0.dom().contains(x) ==> restore_from_last(
                dir,
                backup,
                old,
            ).0[x] == if old.contains(x) {
                backup[x]
            } else {
                dir[x]
            },
        forall|x: Seq<char>|
            #[trigger] restore_from_last(dir, backup, old).1.dom().contains(x) <==> backup.dom().contains(
                x,
            ) && !old.contains(x),
    decreases old.len(),
{
    if old.len() > 0 {
        let n = old.last();
        let rest = old.drop_last();
        let d = dir.insert(n, backup[n]);
        let b = backup.remove(n);
        assert forall|i: int| 0 <= i < rest.len() implies b.dom().contains(#[trigger] rest[i]) by {
            assert(old[i] == rest[i]);
            assert(old[old.len() - 1] == n);
        }
        assert(rest.no_duplicates()) by {
            assert forall|i: int, j: int|
                0 <= i < rest.len() && 0 <= j < rest.len() && i != j implies rest[i] != rest[j] by {
                assert(rest[i] == old[i] && rest[j] == old[j]);
            }
        }
        lemma_restore(d, b, rest);
        let r = restore_from_last(d, b, rest);
        assert(restore_from_last(dir, backup, old) == r);
        assert(!rest.contains(n)) by {
            if rest.contains(n) {
                let i = choose|i: int| 0 <= i < rest.len() && rest[i] == n;
                assert(old[i] == old[old.len() - 1]);
            }
        }
        assert forall|x: Seq<char>| #[trigger]
            r.0.dom().contains(x) <==> dir.dom().contains(x) || old.contains(x) by {
            lemma_contains_last(old, x);
            assert(r.0.dom().contains(x) <==> d.dom().contains(x) || rest.contains(x));
        }
        assert forall|x: Seq<char>| #[trigger] r.0.dom().contains(x) implies r.0[x] == if old.contains(
            x,
        ) {
            backup[x]
        } else {
            dir[x]
        } by {
            lemma_contains_last(old, x);
            assert(r.0[x] == if rest.contains(x) {
                b[x]
            } else {
                d[x]
            });
        }
        assert forall|x: Seq<char>| #[trigger]
            r.1.dom().contains(x) <==> backup.dom().contains(x) && !old.contains(x) by {
            lemma_contains_last(old, x);
            assert(r.1.dom().contains(x) <==> b.dom().contains(x) && !rest.contains(x));
        }
    }
}

/// What a swap state holds, against the directory `dir0` it started from:
/// the backup holds exactly the moved files, with their original contents;
/// the directory holds the original files not moved and the installed ones.
pub open spec fn swap_state_ok(s: SwapState, dir0: Files, staged: Files) -> bool {
    &&& s.2.no_duplicates()
    &&& forall|x: Seq<char>| #[trigger] s.2.contains(x) ==> dir0.dom().contains(x)
    &&& forall|x: Seq<char>| #[trigger] s.1.dom().contains(x) <==> s.2.contains(x)
    &&& forall|x: Seq<char>| #[trigger] s.1.dom().contains(x) ==> s.1[x] == dir0[x]
    &&& forall|x: Seq<char>|
        #[trigger] s.0.dom().contains(x) <==> (dir0.dom().contains(x) && !s.2.contains(x))
            || s.3.contains(x)
    &&& forall|x: Seq<char>|
        #[trigger] s.0.dom().contains(x) ==> s.0[x] == if s.3.contains(x) {
            staged[x]
        } else {
            dir0[x]
        }
}

proof fn lemma_undo(s: SwapState, dir0: Files, staged: Files)
    requires
        swap_state_ok(s, dir0, staged),
        forall|x: Seq<char>| #[trigger] s.3.contains(x) && dir0.dom().contains(x) ==> s.2.contains(x),
    ensures
        undo(s) == (dir0, Map::<Seq<char>, int>::empty()),
{
    let d1 = remove_all(s.0, s.3);
    lemma_remove_all(s.0, s.3);
    assert forall|i: int| 0 <= i < s.2.len() implies s.1.dom().contains(#[trigger] s.2[i]) by {
        assert(s.2.contains(s.2[i]));
    }
    lemma_restore(d1, s.1, s.2);
    let r = restore_from_last(d1, s.1, s.2);
    assert forall|x: Seq<char>| r.0.dom().contains(x) <==> dir0.dom().contains(x) by {
        if dir0.dom().contains(x) && !s.2.contains(x) && s.3.contains(x) {
            assert(s.2.contains(x));
        }
    }
    assert forall|x: Seq<char>| #[trigger] r.0.dom().contains(x) implies r.0[x] == dir0[x] by {
        if !s.2.contains(x) {
            assert(d1.dom().contains(x));
            assert(s.0.dom().contains(x));
            assert(!s.3.contains(x));
        }
    }
    assert(r.0 =~= dir0);
    assert(r.1 =~= Map::<Seq<char>, int>::empty());
}

pub open spec fn step_names(steps: Seq<(bool, Seq<char>)>) -> Seq<Seq<char>> {
    steps.map_values(|st: (bool, Seq<char>)| st.1)
}

pub open spec fn is_present(managed: Seq<Seq<char>>, present: Seq<bool>, x: Seq<char>) -> bool {
    exists|j: int| 0 <= j < managed.len() && managed[j] == x && present[j]
}

proof fn lemma_backup_steps(managed: Seq<Seq<char>>, present: Seq<bool>)
    requires
        managed.no_duplicates(),
        present.len() == managed.len(),
    ensures
        forall|i: int|
            0 <= i < backup_steps(managed, present).len() ==> !(#[trigger] backup_steps(
                managed,
                present,
            )[i]).0,
        step_names(backup_steps(managed, present)).no_duplicates(),
        forall|x: Seq<char>|
            #[trigger] step_names(backup_steps(managed, present)).contains(x) <==> is_present(
                managed,
                present,
                x,
            ),
    decreases managed.len(),
{
    if managed.len() > 0 {
        let m = managed.drop_last();
        let p = present.drop_last();
        assert(m.no_duplicates()) by {
            assert forall|i: int, j: int|
                0 <= i < m.len() && 0 <= j < m.len() && i != j implies m[i] != m[j] by {
                assert(m[i] == managed[i] && m[j] == managed[j]);
            }
        }
        lemma_backup_steps(m, p);
        let b = backup_steps(m, p);
        let last = managed.last();
        assert forall|x: Seq<char>|
            #[trigger] is_present(managed, present, x) <==> (is_present(m, p, x) || (x == last
                && present.last())) by {
            if exists|j: int| 0 <= j < managed.len() && managed[j] == x && present[j] {
                let j = choose|j: int| 0 <= j < managed.len() && managed[j] == x && present[j];
                if j < m.len() {
                    assert(m[j] == x && p[j]);
                }
            }
            if exists|j: int| 0 <= j < m.len() && m[j] == x && p[j] {
                let j = choose|j: int| 0 <= j < m.len() && m[j] == x && p[j];
                assert(managed[j] == x && present[j]);
            }
            if x == last && present.last() {
                assert(managed[managed.len() - 1] == x && present[managed.len() - 1]);
            }
        }
        if present.last() {
            let full = b.push((false, last));
            assert(step_names(full) =~= step_names(b).push(last));
            assert(!step_names(b).contains(last)) by {
                if step_names(b).contains(last) {
                    let j = choose|j: int| 0 <= j < m.len() && m[j] == last && p[j];
                    assert(managed[j] == managed[managed.len() - 1]);
                }
            }
            assert forall|x: Seq<char>| #[trigger]
                step_names(full).contains(x) <==> step_names(b).contains(x) || x == last by {
                vstd::seq_lib::lemma_seq_contains_after_push(step_names(b), last, x);
            }
            assert(step_names(full).no_duplicates()) by {
                assert forall|i: int, j: int|
                    0 <= i < step_names(full).len() && 0 <= j < step_names(full).len() && i != j implies step_names(
                    full,
                )[i] != step_names(full)[j] by {
                    if i < b.len() && j < b.len() {
                        assert(step_names(full)[i] == step_names(b)[i]);
                        assert(step_names(full)[j] == step_names(b)[j]);
                    } else if i < b.len() {
                        assert(step_names(b).contains(step_names(b)[i]));
                    } else if j < b.len() {
                        assert(step_names(b).contains(step_names(b)[j]));
                    }
                }
            }
        }
    }
}

/// The state after the first `k` steps of the swap.
pub open spec fn after_steps(
    dir0: Files,
    staged: Files,
    managed: Seq<Seq<char>>,
    present: Seq<bool>,
    names: Seq<Seq<char>>,
    k: int,
) -> SwapState {
    run_steps(
        (dir0, Map::empty(), seq![], seq![]),
        staged,
        swap_plan(managed, present, names).take(k),
    )
}

proof fn lemma_after_steps(
    dir0: Files,
    staged: Files,
    managed: Seq<Seq<char>>,
    present: Seq<bool>,
    names: Seq<Seq<char>>,
    k: int,
)
    requires
        managed.no_duplicates(),
        present.len() == managed.len(),
        forall|j: int| 0 <= j < managed.len() ==> present[j] == dir0.dom().contains(#[trigger] managed[j]),
        forall|i: int| 0 <= i < names.len() ==> managed.contains(#[trigger] names[i]),
        0 <= k <= swap_plan(managed, present, names).len(),
    ensures
        ({
            let s = after_steps(dir0, staged, managed, present, names, k);
            let bn = step_names(backup_steps(managed, present));
            &&& swap_state_ok(s, dir0, staged)
            &&& k <= bn.len() ==> s.2 == bn.take(k) && s.3 == Seq::<Seq<char>>::empty()
            &&& k > bn.len() ==> s.2 == bn && s.3 == names.take(k - bn.len())
        }),
    decreases k,
{
    let plan = swap_plan(managed, present, names);
    let b = backup_steps(managed, present);
    let bn = step_names(b);
    lemma_backup_steps(managed, present);
    if k == 0 {
        assert(plan.take(0) =~= Seq::<(bool, Seq<char>)>::empty());
        assert(bn.take(0) =~= Seq::<Seq<char>>::empty());
    } else {
        lemma_after_steps(dir0, staged, managed, present, names, k - 1);
        let s = after_steps(dir0, staged, managed, present, names, k - 1);
        assert(plan.take(k).drop_last() =~= plan.take(k - 1));
        assert(plan.take(k).last() == plan[k - 1]);
        let t = apply_step(s, staged, plan[k - 1]);
        assert(after_steps(dir0, staged, managed, present, names, k) == t);
        if k - 1 < b.len() {
            assert(plan[k - 1] == b[k - 1]);
            let n = bn[k - 1];
            assert(plan[k - 1] == (false, n));
            assert(bn.contains(n));
            let j = choose|j: int| 0 <= j < managed.len() && managed[j] == n && present[j];
            assert(dir0.dom().contains(n));
            assert(!s.2.contains(n)) by {
                if s.2.contains(n) {
                    let i = choose|i: int| 0 <= i < s.2.len() && s.2[i] == n;
                    assert(bn[i] == bn[k - 1]);
                }
            }
            assert(bn.take(k) =~= bn.take(k - 1).push(n));
            assert forall|x: Seq<char>| #[trigger] t.2.contains(x) <==> s.2.contains(x) || x == n by {
                vstd::seq_lib::lemma_seq_contains_after_push(s.2, n, x);
            }
            assert(t.2.no_duplicates()) by {
                assert forall|i: int, i2: int|
                    0 <= i < t.2.len() && 0 <= i2 < t.2.len() && i != i2 implies t.2[i] != t.2[i2] by {
                    assert(t.2[i] == bn[i] && t.2[i2] == bn[i2]);
                }
            }
            assert(s.0.dom().contains(n));
        } else {
            let n = names[k - 1 - b.len()];
            assert(plan[k - 1] == (true, n));
            assert(names.take(k - bn.len()) =~= names.take(k - 1 - bn.len()).push(n));
            if k - 1 == b.len() {
                assert(bn.take(k - 1) =~= bn);
                assert(names.take(0) =~= Seq::<Seq<char>>::empty());
            }
            assert forall|x: Seq<char>| #[trigger] t.3.contains(x) <==> s.3.contains(x) || x == n by {
                vstd::seq_lib::lemma_seq_contains_after_push(s.3, n, x);
            }
        }
    }
}

/// A rollback after any number of the swap's steps leaves the VM's
/// directory exactly as it was before the swap, and the backup empty: for
/// every directory `dir0`, bundle files `staged`, managed names without
/// repetition that include the bundle's resources `names`, and presence
/// flags that tell which managed files `dir0` holds.
pub proof fn lemma_rollback_restores(
    dir0: Files,
    staged: Files,
    managed: Seq<Seq<char>>,
    present: Seq<bool>,
    names: Seq<Seq<char>>,
    k: int,
)
    requires
        managed.no_duplicates(),
        present.len() == managed.len(),
        forall|j: int| 0 <= j < managed.len() ==> present[j] == dir0.dom().contains(#[trigger] managed[j]),
        forall|i: int| 0 <= i < names.len() ==> managed.contains(#[trigger] names[i]),
        0 <= k <= swap_plan(managed, present, names).len(),
    ensures
        undo(after_steps(dir0, staged, managed, present, names, k)) == (
            dir0,
            Map::<Seq<char>, int>::empty(),
        ),
{
    lemma_after_steps(dir0, staged, managed, present, names, k);
    lemma_backup_steps(managed, present);
    let s = after_steps(dir0, staged, managed, present, names, k);
    let bn = step_names(backup_steps(managed, present));
    assert forall|x: Seq<char>| #[trigger] s.3.contains(x) && dir0.dom().contains(x) implies s.2.contains(
        x,
    ) by {
        let i = choose|i: int| 0 <= i < s.3.len() && s.3[i] == x;
        assert(names.contains(names[i]));
        let j = choose|j: int| 0 <= j < managed.len() && managed[j] == x;
        assert(present[j]);
        assert(bn.contains(x));
    }
    lemma_undo(s, dir0, staged);
}


proof fn lemma_missing_from(names: Seq<Seq<char>>, extra: Seq<Seq<char>>)
    requires
        extra.no_duplicates(),
    ensures
        missing_from(names, extra).no_duplicates(),
        forall|x: Seq<char>|
            #[trigger] missing_from(names, extra).contains(x) <==> extra.contains(x)
                && !names.contains(x),
    decreases extra.len(),
{
    if extra.len() > 0 {
        let rest = extra.drop_last();
        let e = extra.last();
        assert(rest.no_duplicates()) by {
            assert forall|i: int, j: int|
                0 <= i < rest.len() && 0 <= j < rest.len() && i != j implies rest[i] != rest[j] by {
                assert(rest[i] == extra[i] && rest[j] == extra[j]);
            }
        }
        lemma_missing_from(names, rest);
        let m = missing_from(names, rest);
        assert(!rest.contains(e)) by {
            if rest.contains(e) {
                let i = choose|i: int| 0 <= i < rest.len() && rest[i] == e;
                assert(extra[i] == extra[extra.len() - 1]);
            }
        }
        assert forall|x: Seq<char>| #[trigger]
            missing_from(names, extra).contains(x) <==> extra.contains(x) && !names.contains(x) by {
            lemma_contains_last(extra, x);
            if !names.contains(e) {
                vstd::seq_lib::lemma_seq_contains_after_push(m, e, x);
            }
        }
        if !names.contains(e) {
            assert(missing_from(names, extra).no_duplicates()) by {
                let full = m.push(e);
                assert forall|i: int, j: int|
                    0 <= i < full.len() && 0 <= j < full.len() && i != j implies full[i] != full[j] by {
                    if i < m.len() {
                        assert(m.contains(m[i]));
                    }
                    if j < m.len() {
                        assert(m.contains(m[j]));
                    }
                }
            }
        }
    }
}

/// The managed names of a bundle without repeated names repeat none, and
/// include every resource of the bundle: the conditions under which
/// `lemma_rollback_restores` holds.
pub proof fn lemma_managed_names(names: Seq<Seq<char>>)
    requires
        names.no_duplicates(),
    ensures
        managed_names(names).no_duplicates(),
        forall|i: int| 0 <= i < names.len() ==> managed_names(names).contains(#[trigger] names[i]),
{
    let extra = optional_names();
    assert(extra.no_duplicates()) by {
        reveal_strlit("initrd");
        reveal_strlit("seed.ext4");
        reveal_strlit("oci-init-version");
        reveal_strlit("egress-bootstrap");
        assert("initrd"@.len() != "seed.ext4"@.len());
        assert("initrd"@.len() != "oci-init-version"@.len());
        assert("initrd"@.len() != "egress-bootstrap"@.len());
        assert("seed.ext4"@.len() != "oci-init-version"@.len());
        assert("seed.ext4"@.len() != "egress-bootstrap"@.len());
        assert("oci-init-version"@[0] != "egress-bootstrap"@[0]);
    }
    lemma_missing_from(names, extra);
    let m = missing_from(names, extra);
    assert forall|i: int, j: int| 0 <= i < names.len() && 0 <= j < m.len() implies names[i] != m[j] by {
        assert(m.contains(m[j]));
        assert(names.contains(names[i]));
    }
    vstd::seq_lib::lemma_no_dup_in_concat(names, m);
    assert forall|i: int| 0 <= i < names.len() implies managed_names(names).contains(
        #[trigger] names[i],
    ) by {
        assert(managed_names(names)[i] == names[i]);
    }
}

} // verus!
