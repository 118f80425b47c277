//! The class registry: classes are registered once, optionally inheriting
//! from one previously registered parent, and each class stores its fully
//! resolved method table — every method it can answer to, mapped to the class
//! that defines it from this class's point of view.

use vstd::prelude::*;
use vstd::string::StringExecFns;

verus! {

/// Name of a class.
pub type ClassName = String;

/// Name of a method.
pub type Function = String;

/// Abstract value of one class record: the resolved (method, owner) pairs,
/// in the order they were first introduced.
pub type RecordView = Seq<(Seq<char>, Seq<char>)>;

/// Abstract value of the whole registry: class name to resolved record.
pub type RegistryView = Map<Seq<char>, RecordView>;

/// Whether some pair of `rec` has key `m`.
pub open spec fn rec_has(rec: RecordView, m: Seq<char>) -> bool {
    exists|i: int| 0 <= i < rec.len() && rec[i].0 == m
}

/// An index of `rec` whose pair has key `m` (unique when keys are distinct).
pub open spec fn rec_index(rec: RecordView, m: Seq<char>) -> int {
    choose|i: int| 0 <= i < rec.len() && rec[i].0 == m
}

/// The keys of `rec` name pairwise different methods.
pub open spec fn rec_distinct(rec: RecordView) -> bool {
    forall|i: int, j: int| 0 <= i < j < rec.len() ==> rec[i].0 != rec[j].0
}

/// The record read as a map from method name to owning class.
pub open spec fn rec_map(rec: RecordView) -> Map<Seq<char>, Seq<char>> {
    Map::new(|m: Seq<char>| rec_has(rec, m), |m: Seq<char>| rec[rec_index(rec, m)].1)
}

/// Every record the registry resolves keeps its method names distinct, so a
/// record reads as a map without loss. `new` establishes this and `add` keeps
/// it.
pub open spec fn registry_ok(reg: RegistryView) -> bool {
    forall|c: Seq<char>| #[trigger] reg.contains_key(c) ==> rec_distinct(reg[c])
}

/// One method declaration laid over a record: an already known method is
/// re-owned in place, a new one is appended.
pub open spec fn overlay_one(rec: RecordView, m: Seq<char>, owner: Seq<char>) -> RecordView {
    if rec_has(rec, m) {
        rec.update(rec_index(rec, m), (m, owner))
    } else {
        rec.push((m, owner))
    }
}

/// A whole list of method declarations laid over a record, first to last.
pub open spec fn overlay(rec: RecordView, ms: Seq<Seq<char>>, owner: Seq<char>) -> RecordView
    decreases ms.len(),
{
    if ms.len() == 0 {
        rec
    } else {
        overlay_one(overlay(rec, ms.drop_last(), owner), ms.last(), owner)
    }
}

/// The views of a list of names.
pub open spec fn names_view(ms: Seq<Function>) -> Seq<Seq<char>> {
    Seq::new(ms.len(), |i: int| ms[i]@)
}

/// The view of an optional name.
pub open spec fn opt_name(p: Option<ClassName>) -> Option<Seq<char>> {
    match p {
        Some(n) => Some(n@),
        None => None,
    }
}

/// How the registry answers one registration request. The checks are made in
/// this order: an existing class name first, then a self-parent, then a
/// missing parent.
pub enum Outcome {
    /// The class is accepted and recorded.
    Accepted,
    /// The class name is already registered.
    Redefinition,
    /// The class names itself as its parent.
    SelfParent,
    /// The named parent is not registered.
    MissingParent,
}

/// The outcome of `register(class, parent)` against registry `reg`.
pub open spec fn register_outcome(
    reg: RegistryView,
    class: Seq<char>,
    parent: Option<Seq<char>>,
) -> Outcome {
    if reg.contains_key(class) {
        Outcome::Redefinition
    } else {
        match parent {
            None => Outcome::Accepted,
            Some(p) => if p == class {
                Outcome::SelfParent
            } else if !reg.contains_key(p) {
                Outcome::MissingParent
            } else {
                Outcome::Accepted
            },
        }
    }
}

/// The record a new class starts from: its parent's record, or empty.
pub open spec fn parent_record(reg: RegistryView, parent: Option<Seq<char>>) -> RecordView {
    match parent {
        None => Seq::empty(),
        Some(p) => reg[p],
    }
}

/// The registry after an accepted registration: the new class's record is its
/// parent's record with the declared methods laid over it.
pub open spec fn register_effect(
    reg: RegistryView,
    class: Seq<char>,
    parent: Option<Seq<char>>,
    ms: Seq<Seq<char>>,
) -> RegistryView {
    reg.insert(class, overlay(parent_record(reg, parent), ms, class))
}

/// One line of a class description: the method, its owning class, and the
/// method again, between a leading tab and a closing line break.
pub open spec fn line_view(m: Seq<char>, owner: Seq<char>) -> Seq<char> {
    "\t"@ + m + " -> "@ + owner + " :: "@ + m + "\n"@
}

/// The text a whole record is described as: one line per pair, in order.
pub open spec fn render(rec: RecordView) -> Seq<char>
    decreases rec.len(),
{
    if rec.len() == 0 {
        Seq::empty()
    } else {
        render(rec.drop_last()) + line_view(rec.last().0, rec.last().1)
    }
}

/// What describing class `c` against registry `reg` returns: the rendered
/// record of a registered class, or `NotDefined` naming an unknown one.
pub open spec fn show_post(reg: RegistryView, c: Seq<char>, r: Result<String, ClassError>) -> bool {
    &&& !reg.contains_key(c) ==> (r matches Err(ClassError::NotDefined(n)) && n@ == c)
    &&& reg.contains_key(c) ==> (r matches Ok(s) && s@ == render(reg[c]))
}

/// The text an error is displayed as: the variant's name, with the offending
/// class name quoted inside parentheses where there is one.
pub open spec fn error_text(e: ClassError) -> Seq<char> {
    match e {
        ClassError::NotDefined(n) => "NotDefined(\""@ + n@ + "\")"@,
        ClassError::ClassRedefinition(n) => "ClassRedefinition(\""@ + n@ + "\")"@,
        ClassError::CircularDependency => "CircularDependency"@,
    }
}

/// Why a registration or a lookup was refused.
#[derive(Debug, PartialEq, Eq)]
pub enum ClassError {
    /// The named class is not registered.
    NotDefined(ClassName),
    /// The named class is already registered.
    ClassRedefinition(ClassName),
    /// A class named itself as its own parent.
    CircularDependency,
}

struct ClassData {
    /// Resolved method table: (method, owning class), method names distinct.
    methods: Vec<(Function, ClassName)>,
}

/// The registry itself: the only mutable state, changed by `add` alone.
pub struct ClassManager {
    classes: Vec<(ClassName, ClassData)>,
}

/// The record a stored class resolves to.
spec fn data_view(d: ClassData) -> RecordView {
    pairs_view(d.methods@)
}

/// The views of a list of (method, owner) pairs.
spec fn pairs_view(s: Seq<(Function, ClassName)>) -> RecordView {
    Seq::new(s.len(), |i: int| (s[i].0@, s[i].1@))
}

/// The registry map built from the stored classes, later entries last.
spec fn classes_map(s: Seq<(ClassName, ClassData)>) -> RegistryView
    decreases s.len(),
{
    if s.len() == 0 {
        Map::empty()
    } else {
        classes_map(s.drop_last()).insert(s.last().0@, data_view(s.last().1))
    }
}

impl View for ClassManager {
    type V = RegistryView;

    closed spec fn view(&self) -> RegistryView {
        classes_map(self.classes@)
    }
}

impl ClassManager {
    /// Class names are stored at most once, and every stored record keeps its
    /// method names distinct.
    #[verifier::type_invariant]
    spec fn wf(self) -> bool {
        &&& forall|i: int, j: int|
            0 <= i < j < self.classes@.len() ==> self.classes@[i].0@ != self.classes@[j].0@
        &&& forall|i: int|
            0 <= i < self.classes@.len() ==> rec_distinct(data_view(#[trigger] self.classes@[i].1))
    }

    /// Create a new empty class manager.
    pub fn new() -> (r: ClassManager)
        ensures
            r@ == RegistryView::empty(),
            registry_ok(r@),
    {
        ClassManager { classes: Vec::new() }
    }

    /// Find the position of a stored class by name.
    fn find_class(&self, name: &ClassName) -> (r: Option<usize>)
        ensures
            match r {
                Some(i) => i < self.classes@.len() && self.classes@[i as int].0@ == name@,
                None => forall|j: int|
                    0 <= j < self.classes@.len() ==> self.classes@[j].0@ != name@,
            },
    {
        let mut i: usize = 0;
        while i < self.classes.len()
            invariant
                i <= self.classes@.len(),
                forall|j: int| 0 <= j < i ==> self.classes@[j].0@ != name@,
            decreases self.classes@.len() - i,
        {
            let pair = &self.classes[i];
            if pair.0 == *name {
                return Some(i);
            }
            i += 1;
        }
        None
    }

    /// Add a new class, maybe with a parent class, with a list of methods
    /// declared on it.
    ///
    /// The request is checked in this order: a name already registered is a
    /// `ClassRedefinition`, a class naming itself as parent is a
    /// `CircularDependency`, and a parent that is not registered is
    /// `NotDefined`. On success the class's record becomes its parent's
    /// record (empty without a parent) with the declared methods laid over
    /// it, each owned by the new class; the registry is unchanged on any
    /// error.
    pub fn add(
        &mut self,
        class: ClassName,
        parent_class: Option<ClassName>,
        methods: Vec<Function>,
    ) -> (r: Result<(), ClassError>)
        ensures
            registry_ok(final(self)@),
            ({
                let reg = old(self)@;
                let c = class@;
                let p = opt_name(parent_class);
                let ms = names_view(methods@);
                match register_outcome(reg, c, p) {
                    Outcome::Redefinition => final(self)@ == reg && (r matches Err(
                        ClassError::ClassRedefinition(n),
                    ) && n@ == c),
                    Outcome::SelfParent => final(self)@ == reg && (r matches Err(
                        ClassError::CircularDependency,
                    )),
                    Outcome::MissingParent => final(self)@ == reg && (r matches Err(
                        ClassError::NotDefined(n),
                    ) && Some(n@) == p),
                    Outcome::Accepted => r is Ok && final(self)@ == register_effect(reg, c, p, ms),
                }
            }),
    {
        proof {
            use_type_invariant(&*self);
        }
        let ghost reg = self@;
        proof {
            lemma_wf_registry_ok(self.classes@);
            lemma_classes_map_lookup(self.classes@, class@);
        }
        if self.find_class(&class).is_some() {
            return Err(ClassError::ClassRedefinition(class));
        }
        let mut class_methods: Vec<(Function, ClassName)> = Vec::new();
        match parent_class {
            Some(parent) => {
                if class == parent {
                    return Err(ClassError::CircularDependency);
                }
                proof {
                    lemma_classes_map_lookup(self.classes@, parent@);
                }
                match self.find_class(&parent) {
                    None => {
                        return Err(ClassError::NotDefined(parent));
                    },
                    Some(i) => {
                        class_methods = clone_record(&self.classes[i].1.methods);
                        proof {
                            assert(forall|j: int|
                                i < j < self.classes@.len() ==> self.classes@[j].0@ != parent@);
                            assert(self@[parent@] == data_view(self.classes@[i as int].1));
                        }
                    },
                }
            },
            None => {},
        }
        let ghost base = pairs_view(class_methods@);
        assert(base == parent_record(reg, opt_name(parent_class)));
        let mut k: usize = 0;
        while k < methods.len()
            invariant
                k <= methods@.len(),
                rec_distinct(pairs_view(class_methods@)),
                pairs_view(class_methods@) == overlay(
                    base,
                    names_view(methods@).take(k as int),
                    class@,
                ),
                rec_distinct(base),
            decreases methods@.len() - k,
        {
            let m = methods[k].clone();
            record_insert(&mut class_methods, m, class.clone());
            proof {
                assert(names_view(methods@).take(k + 1).drop_last() =~= names_view(
                    methods@,
                ).take(k as int));
                assert(names_view(methods@).take(k + 1).last() == methods@[k as int]@);
            }
            k += 1;
        }
        proof {
            assert(names_view(methods@).take(methods@.len() as int) =~= names_view(methods@));
        }
        let ghost old_classes = self.classes@;
        let mut cs: Vec<(ClassName, ClassData)> = Vec::new();
        core::mem::swap(&mut self.classes, &mut cs);
        cs.push((class, ClassData { methods: class_methods }));
        proof {
            lemma_classes_map_push(old_classes, cs@.last());
            assert(cs@.drop_last() =~= old_classes);
        }
        self.classes = cs;
        proof {
            assert(self@ =~= register_effect(reg, class@, opt_name(parent_class), names_view(methods@)));
            lemma_register_keeps_registry_ok(
                reg,
                class@,
                opt_name(parent_class),
                names_view(methods@),
            );
        }
        Ok(())
    }

    /// Return the text describing a class: one line per resolved method with
    /// its owning class, or `NotDefined` for a class that is not registered.
    pub fn show(&self, class: ClassName) -> (r: Result<String, ClassError>)
        ensures
            show_post(self@, class@, r),
    {
        proof {
            use_type_invariant(self);
            lemma_classes_map_lookup(self.classes@, class@);
        }
        match self.find_class(&class) {
            None => Err(ClassError::NotDefined(class)),
            Some(i) => {
                proof {
                    assert(forall|j: int|
                        i < j < self.classes@.len() ==> self.classes@[j].0@ != class@);
                    assert(self@[class@] == data_view(self.classes@[i as int].1));
                }
                let rec = &self.classes[i].1.methods;
                let ghost v = pairs_view(rec@);
                let mut s = String::new();
                let mut j: usize = 0;
                while j < rec.len()
                    invariant
                        j <= rec@.len(),
                        v == pairs_view(rec@),
                        s@ == render(v.take(j as int)),
                    decreases rec@.len() - j,
                {
                    let pair = &rec[j];
                    s.append("\t");
                    s.append(pair.0.as_str());
                    s.append(" -> ");
                    s.append(pair.1.as_str());
                    s.append(" :: ");
                    s.append(pair.0.as_str());
                    s.append("\n");
                    proof {
                        assert(v.take(j + 1).drop_last() =~= v.take(j as int));
                        assert(v.take(j + 1).last() == v[j as int]);
                        assert(s@ =~= render(v.take(j + 1)));
                    }
                    j += 1;
                }
                proof {
                    assert(v.take(v.len() as int) =~= v);
                }
                Ok(s)
            },
        }
    }
}

impl ClassError {
    /// Render this error as readable text.
    pub fn display(&self) -> (r: String)
        ensures
            r@ == error_text(*self),
    {
        match self {
            ClassError::NotDefined(n) => {
                let mut s = String::from_str("NotDefined(\"");
                s.append(n.as_str());
                s.append("\")");
                proof {
                    assert(s@ =~= error_text(*self));
                }
                s
            },
            ClassError::ClassRedefinition(n) => {
                let mut s = String::from_str("ClassRedefinition(\"");
                s.append(n.as_str());
                s.append("\")");
                proof {
                    assert(s@ =~= error_text(*self));
                }
                s
            },
            ClassError::CircularDependency => String::from_str("CircularDependency"),
        }
    }
}

/// A fresh copy of a stored record, pair for pair.
fn clone_record(src: &Vec<(Function, ClassName)>) -> (r: Vec<(Function, ClassName)>)
    ensures
        r@ == src@,
{
    let mut r: Vec<(Function, ClassName)> = Vec::new();
    let mut i: usize = 0;
    while i < src.len()
        invariant
            i <= src@.len(),
            r@ == src@.take(i as int),
        decreases src@.len() - i,
    {
        let pair = &src[i];
        r.push((pair.0.clone(), pair.1.clone()));
        proof {
            assert(src@.take(i + 1) =~= src@.take(i as int).push(src@[i as int]));
        }
        i += 1;
    }
    proof {
        assert(src@.take(src@.len() as int) =~= src@);
    }
    r
}

/// Lay one declared method over a record in place: re-own a known method,
/// append a new one.
fn record_insert(rec: &mut Vec<(Function, ClassName)>, m: Function, owner: ClassName)
    requires
        rec_distinct(pairs_view(old(rec)@)),
    ensures
        pairs_view(final(rec)@) == overlay_one(pairs_view(old(rec)@), m@, owner@),
        rec_distinct(pairs_view(final(rec)@)),
{
    let ghost orig = pairs_view(rec@);
    let mut i: usize = 0;
    while i < rec.len()
        invariant
            i <= rec@.len(),
            rec@ == old(rec)@,
            orig == pairs_view(rec@),
            rec_distinct(orig),
            forall|j: int| 0 <= j < i ==> orig[j].0 != m@,
        decreases rec@.len() - i,
    {
        let found = rec[i].0 == m;
        if found {
            proof {
                lemma_rec_index_is(orig, m@, i as int);
            }
            let ghost mv = m@;
            let ghost ov = owner@;
            let ghost prev = rec@;
            rec.remove(i);
            rec.insert(i, (m, owner));
            proof {
                assert(rec@[i as int].0@ == mv && rec@[i as int].1@ == ov);
                assert forall|j: int|
                    0 <= j < rec@.len() && j != i implies rec@[j] == prev[j] by {
                    if j > i {
                        assert(prev.remove(i as int)[j - 1] == prev[j]);
                    }
                }
                assert(pairs_view(rec@) =~= overlay_one(orig, mv, ov));
                assert(rec_distinct(pairs_view(rec@)));
            }
            return ;
        }
        i += 1;
    }
    proof {
        assert(!rec_has(orig, m@));
    }
    rec.push((m, owner));
    proof {
        assert(pairs_view(rec@) =~= overlay_one(orig, m@, owner@));
        assert(rec_distinct(pairs_view(rec@)));
    }
}

/// A stored position with a given name fixes both membership in the registry
/// map and the record the name resolves to (for the last such position).
proof fn lemma_classes_map_lookup(s: Seq<(ClassName, ClassData)>, c: Seq<char>)
    ensures
        classes_map(s).contains_key(c) <==> (exists|i: int| 0 <= i < s.len() && s[i].0@ == c),
        forall|i: int|
            0 <= i < s.len() && s[i].0@ == c && (forall|j: int|
                i < j < s.len() ==> s[j].0@ != c) ==> classes_map(s)[c] == data_view(s[i].1),
    decreases s.len(),
{
    if s.len() > 0 {
        let t = s.drop_last();
        lemma_classes_map_lookup(t, c);
        assert forall|i: int|
            0 <= i < s.len() && s[i].0@ == c && (forall|j: int|
                i < j < s.len() ==> s[j].0@ != c) implies classes_map(s)[c] == data_view(
            s[i].1,
        ) by {
            if i == s.len() - 1 {
                assert(classes_map(s)[c] == data_view(s.last().1));
            } else {
                assert(s.last().0@ != c);
                assert(t[i] == s[i]);
                assert(forall|j: int| i < j < t.len() ==> t[j].0@ != c);
            }
        }
        if exists|i: int| 0 <= i < s.len() && s[i].0@ == c {
            let i = choose|i: int| 0 <= i < s.len() && s[i].0@ == c;
            if i < s.len() - 1 {
                assert(t[i].0@ == c);
            }
            assert(classes_map(s).contains_key(c));
        }
        if classes_map(s).contains_key(c) && s.last().0@ != c {
            assert(classes_map(t).contains_key(c));
            let i = choose|i: int| 0 <= i < t.len() && t[i].0@ == c;
            assert(s[i].0@ == c);
        }
    }
}

/// Appending one stored class inserts exactly its record into the map.
proof fn lemma_classes_map_push(s: Seq<(ClassName, ClassData)>, x: (ClassName, ClassData))
    ensures
        classes_map(s.push(x)) == classes_map(s).insert(x.0@, data_view(x.1)),
{
    assert(s.push(x).drop_last() =~= s);
    assert(s.push(x).last() == x);
}

/// One registration request at the model level: class name, optional parent
/// name, declared method names.
pub type RegisterCall = (Seq<char>, Option<Seq<char>>, Seq<Seq<char>>);

/// The registry after a list of registration requests, applied in order; a
/// refused request leaves it unchanged, exactly as `add` does.
pub open spec fn run_registers(reg: RegistryView, calls: Seq<RegisterCall>) -> RegistryView
    decreases calls.len(),
{
    if calls.len() == 0 {
        reg
    } else {
        let first = calls[0];
        let next = if register_outcome(reg, first.0, first.1) == Outcome::Accepted {
            register_effect(reg, first.0, first.1, first.2)
        } else {
            reg
        };
        run_registers(next, calls.drop_first())
    }
}

/// Uniqueness: once a class name is registered, it stays registered through
/// any later sequence of registration requests, and every later request to
/// register it again, with whatever parent, is refused as a redefinition.
pub proof fn lemma_registered_name_is_kept(
    reg: RegistryView,
    calls: Seq<RegisterCall>,
    c: Seq<char>,
    p: Option<Seq<char>>,
)
    requires
        reg.contains_key(c),
    ensures
        run_registers(reg, calls).contains_key(c),
        register_outcome(run_registers(reg, calls), c, p) == Outcome::Redefinition,
    decreases calls.len(),
{
    if calls.len() > 0 {
        let first = calls[0];
        let next = if register_outcome(reg, first.0, first.1) == Outcome::Accepted {
            register_effect(reg, first.0, first.1, first.2)
        } else {
            reg
        };
        lemma_registered_name_is_kept(next, calls.drop_first(), c, p);
    }
}

/// An accepted registration makes its class name registered.
pub proof fn lemma_register_success_registers(
    reg: RegistryView,
    c: Seq<char>,
    p: Option<Seq<char>>,
    ms: Seq<Seq<char>>,
)
    ensures
        register_effect(reg, c, p, ms).contains_key(c),
{
}

/// Parent existence: a fresh class naming a parent, other than itself, that
/// is not registered is refused for the missing parent.
pub proof fn lemma_missing_parent_refused(reg: RegistryView, c: Seq<char>, p: Seq<char>)
    requires
        !reg.contains_key(c),
        p != c,
        !reg.contains_key(p),
    ensures
        register_outcome(reg, c, Some(p)) == Outcome::MissingParent,
{
}

/// No self-parenting: a fresh class naming itself as its parent is refused as
/// a circular dependency, whatever else the registry holds.
pub proof fn lemma_self_parent_refused(reg: RegistryView, c: Seq<char>)
    requires
        !reg.contains_key(c),
    ensures
        register_outcome(reg, c, Some(c)) == Outcome::SelfParent,
{
}

/// Idempotent read: any two descriptions of the same class against the same
/// registry read the same — describing mutates nothing, so two calls in a row
/// with no registration between them cannot differ.
pub proof fn lemma_show_deterministic(
    reg: RegistryView,
    c: Seq<char>,
    r1: Result<String, ClassError>,
    r2: Result<String, ClassError>,
)
    requires
        show_post(reg, c, r1),
        show_post(reg, c, r2),
    ensures
        r1 is Ok <==> r2 is Ok,
        r1 matches Ok(s1) ==> (r2 matches Ok(s2) ==> s1@ == s2@),
        r1 matches Err(e1) ==> (r2 matches Err(e2) ==> error_text(e1) == error_text(e2)),
{
}

/// Inheritance without override: a class accepted with a parent and no
/// declared methods resolves to exactly its parent's record.
pub proof fn lemma_inherit_without_override(reg: RegistryView, c: Seq<char>, p: Seq<char>)
    requires
        register_outcome(reg, c, Some(p)) == Outcome::Accepted,
    ensures
        register_effect(reg, c, Some(p), Seq::empty())[c] == reg[p],
{
}

/// Override correctness: after laying declared methods over a record, a
/// declared method is owned by the declaring class, an inherited method that
/// was not redeclared keeps its original owner, and nothing else is present.
pub proof fn lemma_override_correctness(
    rec: RecordView,
    ms: Seq<Seq<char>>,
    owner: Seq<char>,
    m: Seq<char>,
)
    requires
        rec_distinct(rec),
    ensures
        rec_distinct(overlay(rec, ms, owner)),
        rec_map(overlay(rec, ms, owner)).contains_key(m) <==> (ms.contains(m) || rec_map(
            rec,
        ).contains_key(m)),
        ms.contains(m) ==> rec_map(overlay(rec, ms, owner))[m] == owner,
        !ms.contains(m) && rec_map(rec).contains_key(m) ==> rec_map(overlay(rec, ms, owner))[m]
            == rec_map(rec)[m],
    decreases ms.len(),
{
    if ms.len() > 0 {
        let pre = overlay(rec, ms.drop_last(), owner);
        lemma_override_correctness(rec, ms.drop_last(), owner, m);
        lemma_overlay_one_map(pre, ms.last(), owner);
        if ms.contains(m) {
            let i = choose|i: int| 0 <= i < ms.len() && ms[i] == m;
            if i < ms.len() - 1 {
                assert(ms.drop_last()[i] == m);
                assert(ms.drop_last().contains(m));
            }
        }
        if ms.drop_last().contains(m) {
            let i = choose|i: int| 0 <= i < ms.drop_last().len() && ms.drop_last()[i] == m;
            assert(ms[i] == m);
            assert(ms.contains(m));
        }
        if ms.last() == m {
            assert(ms[ms.len() - 1] == m);
            assert(ms.contains(m));
        }
    }
}

/// Every record a registry resolves keeps its method names distinct, so the
/// record reads as a map without loss.
pub proof fn lemma_register_keeps_registry_ok(
    reg: RegistryView,
    c: Seq<char>,
    p: Option<Seq<char>>,
    ms: Seq<Seq<char>>,
)
    requires
        registry_ok(reg),
        register_outcome(reg, c, p) == Outcome::Accepted,
    ensures
        registry_ok(register_effect(reg, c, p, ms)),
{
    assert(rec_distinct(parent_record(reg, p)));
    lemma_override_correctness(parent_record(reg, p), ms, c, c);
    assert forall|k: Seq<char>|
        #[trigger] register_effect(reg, c, p, ms).contains_key(k) implies rec_distinct(
        register_effect(reg, c, p, ms)[k],
    ) by {
        if k != c {
            assert(reg.contains_key(k));
        }
    }
}

/// The well-formedness of the stored classes carries over to the registry map
/// they are read as.
proof fn lemma_wf_registry_ok(s: Seq<(ClassName, ClassData)>)
    requires
        forall|i: int, j: int| 0 <= i < j < s.len() ==> s[i].0@ != s[j].0@,
        forall|i: int| 0 <= i < s.len() ==> rec_distinct(data_view(#[trigger] s[i].1)),
    ensures
        registry_ok(classes_map(s)),
{
    assert forall|c: Seq<char>| #[trigger] classes_map(s).contains_key(c) implies rec_distinct(
        classes_map(s)[c],
    ) by {
        lemma_classes_map_lookup(s, c);
        let i = choose|i: int| 0 <= i < s.len() && s[i].0@ == c;
        assert(forall|j: int| i < j < s.len() ==> s[j].0@ != c);
        assert(classes_map(s)[c] == data_view(s[i].1));
    }
}

/// Laying one method over a record with distinct keys re-owns or adds exactly
/// that method in the record's reading as a map.
proof fn lemma_overlay_one_map(rec: RecordView, m: Seq<char>, owner: Seq<char>)
    requires
        rec_distinct(rec),
    ensures
        rec_distinct(overlay_one(rec, m, owner)),
        rec_map(overlay_one(rec, m, owner)) == rec_map(rec).insert(m, owner),
{
    let out = overlay_one(rec, m, owner);
    if rec_has(rec, m) {
        let i = rec_index(rec, m);
        assert(0 <= i < rec.len() && rec[i].0 == m);
        assert(forall|j: int| 0 <= j < out.len() ==> out[j].0 == rec[j].0);
        assert(rec_distinct(out));
        assert forall|k: Seq<char>| #[trigger] rec_has(out, k) implies rec_has(rec, k) by {
            let a = choose|a: int| 0 <= a < out.len() && out[a].0 == k;
            assert(rec[a].0 == k);
        }
        assert forall|k: Seq<char>| #[trigger] rec_has(rec, k) implies rec_has(out, k) by {
            let a = choose|a: int| 0 <= a < rec.len() && rec[a].0 == k;
            assert(out[a].0 == k);
        }
        assert forall|k: Seq<char>| #[trigger] rec_has(out, k) implies rec_map(out)[k] == rec_map(
            rec,
        ).insert(m, owner)[k] by {
            let a = choose|a: int| 0 <= a < rec.len() && rec[a].0 == k;
            lemma_rec_index_is(rec, k, a);
            lemma_rec_index_is(out, k, a);
            if k == m {
                lemma_rec_index_is(rec, m, i);
                assert(a == i);
            }
        }
        assert(rec_map(out) =~= rec_map(rec).insert(m, owner));
    } else {
        assert(out == rec.push((m, owner)));
        assert forall|a: int, b: int| 0 <= a < b < out.len() implies out[a].0 != out[b].0 by {
            if b == out.len() - 1 {
                assert(rec[a].0 != m);
            }
        }
        assert forall|k: Seq<char>| #[trigger] rec_has(out, k) implies rec_map(out)[k] == rec_map(
            rec,
        ).insert(m, owner)[k] by {
            let a = choose|a: int| 0 <= a < out.len() && out[a].0 == k;
            lemma_rec_index_is(out, k, a);
            if a < rec.len() {
                lemma_rec_index_is(rec, k, a);
            }
        }
        assert forall|k: Seq<char>| #[trigger] rec_has(rec, k) implies rec_has(out, k) by {
            let a = choose|a: int| 0 <= a < rec.len() && rec[a].0 == k;
            assert(out[a].0 == k);
        }
        assert(rec_has(out, m)) by {
            assert(out[out.len() - 1].0 == m);
        }
        assert forall|k: Seq<char>| #[trigger] rec_has(out, k) && k != m implies rec_has(
            rec,
            k,
        ) by {
            let a = choose|a: int| 0 <= a < out.len() && out[a].0 == k;
            assert(a < rec.len());
            assert(rec[a].0 == k);
        }
        assert(rec_map(out) =~= rec_map(rec).insert(m, owner));
    }
}

/// With distinct keys, the chosen index of a key is the only one that has it.
proof fn lemma_rec_index_is(rec: RecordView, m: Seq<char>, i: int)
    requires
        rec_distinct(rec),
        0 <= i < rec.len(),
        rec[i].0 == m,
    ensures
        rec_has(rec, m),
        rec_index(rec, m) == i,
{
    assert(rec_has(rec, m));
    let j = rec_index(rec, m);
    if j < i {
        assert(rec[j].0 != rec[i].0);
    } else if j > i {
        assert(rec[i].0 != rec[j].0);
    }
}

} // verus!
