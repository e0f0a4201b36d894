//! The evaluation context: the variables and the unit of angles.

use vstd::prelude::*;
use crate::number::{E, PI};
use crate::text::same_text;

verus! {

/// The unit in which the trigonometric functions take and give angles.
#[derive(Debug, Clone, Copy, PartialEq, Eq, Structural)]
pub enum AngleMode {
    Degrees,
    Radians,
    Gradians,
}

impl AngleMode {
    /// The word that names the unit.
    pub open spec fn name_spec(self) -> Seq<char> {
        match self {
            AngleMode::Degrees => "deg"@,
            AngleMode::Radians => "rad"@,
            AngleMode::Gradians => "grad"@,
        }
    }

    /// The unit that `name` names, if it names one.
    pub open spec fn named(name: Seq<char>) -> Option<AngleMode> {
        if name == "deg"@ {
            Some(AngleMode::Degrees)
        } else if name == "rad"@ {
            Some(AngleMode::Radians)
        } else if name == "grad"@ {
            Some(AngleMode::Gradians)
        } else {
            None
        }
    }

    /// The word that names the unit: `deg`, `rad` or `grad`.
    pub fn name(&self) -> (r: &'static str)
        ensures
            r@ == self.name_spec(),
    {
        match self {
            AngleMode::Degrees => "deg",
            AngleMode::Radians => "rad",
            AngleMode::Gradians => "grad",
        }
    }

    /// The unit named by one of the words `deg`, `rad` and `grad`; any
    /// other word is refused.
    pub fn from_name(name: &str) -> (r: Result<AngleMode, String>)
        ensures
            match Self::named(name@) {
                Some(mode) => r matches Ok(m) && m == mode,
                None => r matches Err(e) && e@ == "Invalid angle mode"@,
            },
    {
        if same_text(name, "deg") {
            Ok(AngleMode::Degrees)
        } else if same_text(name, "rad") {
            Ok(AngleMode::Radians)
        } else if same_text(name, "grad") {
            Ok(AngleMode::Gradians)
        } else {
            Err(String::from_str("Invalid angle mode"))
        }
    }

    /// Each unit is the one that its name names.
    pub proof fn lemma_name_names_the_unit(self)
        ensures
            Self::named(self.name_spec()) == Some(self),
    {
        reveal_strlit("deg");
        reveal_strlit("rad");
        reveal_strlit("grad");
        assert("deg"@[0] == 'd' && "rad"@[0] == 'r' && "grad"@[0] == 'g');
    }
}

/// The bindings of a new context: the circle constant and Euler's number,
/// each under its name in upper case and in lower case.
pub open spec fn constants() -> Map<Seq<char>, u64> {
    Map::<Seq<char>, u64>::empty().insert("PI"@, PI).insert("E"@, E).insert("pi"@, PI).insert(
        "e"@,
        E,
    )
}

/// The bindings that a list of entries makes: of two entries with one name
/// the later one counts.
pub open spec fn bindings_of(entries: Seq<(String, u64)>) -> Map<Seq<char>, u64>
    decreases entries.len(),
{
    if entries.len() == 0 {
        Map::empty()
    } else {
        bindings_of(entries.drop_last()).insert(entries.last().0@, entries.last().1)
    }
}

/// Whether no two of the entries have one name.
pub open spec fn distinct_names(entries: Seq<(String, u64)>) -> bool {
    forall|i: int, j: int|
        0 <= i < j < entries.len() ==> (#[trigger] entries[i]).0@ != (#[trigger] entries[j]).0@
}

/// Overwriting the value of the last entry with a given name binds that
/// name to the new value and changes nothing else.
proof fn lemma_overwrite(entries: Seq<(String, u64)>, i: int, value: u64)
    requires
        0 <= i < entries.len(),
        forall|j: int| i < j < entries.len() ==> entries[j].0@ != entries[i].0@,
    ensures
        bindings_of(entries.update(i, (entries[i].0, value))) == bindings_of(entries).insert(
            entries[i].0@,
            value,
        ),
    decreases entries.len(),
{
    let changed = entries.update(i, (entries[i].0, value));
    if i == entries.len() - 1 {
        assert(changed.drop_last() =~= entries.drop_last());
        assert(bindings_of(changed) =~= bindings_of(entries).insert(entries[i].0@, value));
    } else {
        lemma_overwrite(entries.drop_last(), i, value);
        assert(changed.drop_last() =~= entries.drop_last().update(i, (entries[i].0, value)));
        assert(bindings_of(changed) =~= bindings_of(entries).insert(entries[i].0@, value));
    }
}

/// The variables, among them the constants and the last result, and the
/// unit of angles.
pub struct Context {
    variables: Vec<(String, u64)>,
    angle_mode: AngleMode,
}

impl Context {
    /// Whether each variable is held once.  A new context is well formed,
    /// and every operation keeps a context so.
    pub closed spec fn wf(&self) -> bool {
        distinct_names(self.variables@)
    }

    /// The value of each variable that has one.
    pub closed spec fn bindings(&self) -> Map<Seq<char>, u64> {
        bindings_of(self.variables@)
    }

    /// The unit of angles.
    pub closed spec fn mode(&self) -> AngleMode {
        self.angle_mode
    }

    /// A context that holds the constants and measures angles in degrees.
    pub fn new() -> (context: Self)
        ensures
            context.bindings() == constants(),
            context.mode() == AngleMode::Degrees,
            context.wf(),
    {
        let mut variables: Vec<(String, u64)> = Vec::new();
        let ghost m0 = Map::<Seq<char>, u64>::empty();
        assert(bindings_of(variables@) == m0);
        let ghost v0 = variables@;
        variables.push((String::from_str("PI"), PI));
        let ghost v1 = variables@;
        assert(v1.drop_last() =~= v0);
        assert(bindings_of(v1) == m0.insert("PI"@, PI));
        variables.push((String::from_str("E"), E));
        let ghost v2 = variables@;
        assert(v2.drop_last() =~= v1);
        assert(bindings_of(v2) == m0.insert("PI"@, PI).insert("E"@, E));
        variables.push((String::from_str("pi"), PI));
        let ghost v3 = variables@;
        assert(v3.drop_last() =~= v2);
        assert(bindings_of(v3) == m0.insert("PI"@, PI).insert("E"@, E).insert("pi"@, PI));
        variables.push((String::from_str("e"), E));
        assert(variables@.drop_last() =~= v3);
        proof {
            reveal_strlit("PI");
            reveal_strlit("E");
            reveal_strlit("pi");
            reveal_strlit("e");
            assert("PI"@.len() == 2 && "pi"@.len() == 2 && "E"@.len() == 1 && "e"@.len() == 1);
            assert("PI"@[0] == 'P' && "pi"@[0] == 'p' && "E"@[0] == 'E' && "e"@[0] == 'e');
            assert(variables@[0].0@ == "PI"@ && variables@[1].0@ == "E"@ && variables@[2].0@
                == "pi"@ && variables@[3].0@ == "e"@);
        }
        Context { variables, angle_mode: AngleMode::Degrees }
    }

    /// The index of the last entry named `name`.
    fn find(&self, name: &str) -> (r: Option<usize>)
        ensures
            match r {
                Some(i) => {
                    &&& i < self.variables@.len()
                    &&& self.variables@[i as int].0@ == name@
                    &&& forall|j: int|
                        i < j < self.variables@.len() ==> self.variables@[j].0@ != name@
                    &&& self.bindings().contains_key(name@)
                    &&& self.bindings()[name@] == self.variables@[i as int].1
                },
                None => {
                    &&& !self.bindings().contains_key(name@)
                    &&& forall|j: int|
                        0 <= j < self.variables@.len() ==> self.variables@[j].0@ != name@
                },
            },
    {
        let mut i: usize = self.variables.len();
        assert(self.variables@.take(i as int) =~= self.variables@);
        while i > 0
            invariant
                i <= self.variables@.len(),
                forall|j: int| i <= j < self.variables@.len() ==> self.variables@[j].0@ != name@,
                bindings_of(self.variables@).contains_key(name@) == bindings_of(
                    self.variables@.take(i as int),
                ).contains_key(name@),
                bindings_of(self.variables@).contains_key(name@) ==> bindings_of(
                    self.variables@,
                )[name@] == bindings_of(self.variables@.take(i as int))[name@],
            decreases i,
        {
            let ghost prefix = self.variables@.take(i as int);
            assert(prefix.drop_last() =~= self.variables@.take(i - 1));
            assert(prefix.last() == self.variables@[i - 1]);
            i -= 1;
            if same_text(self.variables[i].0.as_str(), name) {
                return Some(i);
            }
        }
        assert(self.variables@.take(0) =~= Seq::<(String, u64)>::empty());
        None
    }

    /// The value of the variable `name`, if it has one.
    pub fn get(&self, name: &str) -> (r: Option<u64>)
        ensures
            r == if self.bindings().contains_key(name@) {
                Some(self.bindings()[name@])
            } else {
                None
            },
    {
        match self.find(name) {
            Some(i) => Some(self.variables[i].1),
            None => None,
        }
    }

    /// Binds the variable `ans`, which holds the last result.
    pub fn set_ans(&mut self, value: u64)
        ensures
            final(self).bindings() == old(self).bindings().insert("ans"@, value),
            final(self).mode() == old(self).mode(),
            old(self).wf() ==> final(self).wf(),
    {
        self.set(String::from_str("ans"), value);
    }

    /// Binds the variable `name` to `value`, whatever it was bound to.
    pub fn set(&mut self, name: String, value: u64)
        ensures
            final(self).bindings() == old(self).bindings().insert(name@, value),
            final(self).mode() == old(self).mode(),
            old(self).wf() ==> final(self).wf(),
    {
        match self.find(name.as_str()) {
            Some(i) => {
                proof {
                    lemma_overwrite(self.variables@, i as int, value);
                }
                let ghost before = self.variables@;
                self.variables.set(i, (name, value));
                assert(distinct_names(before) ==> distinct_names(self.variables@)) by {
                    if distinct_names(before) {
                    assert forall|a: int, b: int| 0 <= a < b < self.variables@.len() implies (
                    #[trigger] self.variables@[a]).0@ != (#[trigger] self.variables@[b]).0@ by {
                        assert(before[a].0@ != before[b].0@);
                    }
                    }
                }
                assert(bindings_of(self.variables@) == bindings_of(
                    before.update(i as int, (before[i as int].0, value)),
                )) by {
                    lemma_same_names(
                        self.variables@,
                        before.update(i as int, (before[i as int].0, value)),
                    );
                }
            },
            None => {
                let ghost before = self.variables@;
                self.variables.push((name, value));
                assert(self.variables@.drop_last() =~= before);
                assert(distinct_names(before) ==> distinct_names(self.variables@)) by {
                    if distinct_names(before) {
                        assert forall|a: int, b: int|
                            0 <= a < b < self.variables@.len() implies (
                        #[trigger] self.variables@[a]).0@ != (#[trigger] self.variables@[b]).0@ by {
                            if b < before.len() {
                                assert(before[a].0@ != before[b].0@);
                            }
                        }
                    }
                }
            },
        }
    }

    /// The variables with their values, each once, in the order in which
    /// they were first bound.
    pub fn get_variables(&self) -> (r: &Vec<(String, u64)>)
        ensures
            bindings_of(r@) == self.bindings(),
            self.wf() ==> distinct_names(r@),
    {
        &self.variables
    }

    /// The unit of angles.
    pub fn get_angle_mode(&self) -> (r: AngleMode)
        ensures
            r == self.mode(),
    {
        self.angle_mode
    }

    /// Sets the unit of angles and leaves the variables as they are.
    pub fn set_angle_mode(&mut self, mode: AngleMode)
        ensures
            final(self).mode() == mode,
            final(self).bindings() == old(self).bindings(),
            final(self).wf() == old(self).wf(),
    {
        self.angle_mode = mode;
    }

    /// A copy of the context.
    pub fn snapshot(&self) -> (r: Context)
        ensures
            r.bindings() == self.bindings(),
            r.mode() == self.mode(),
            self.wf() ==> r.wf(),
    {
        let mut variables: Vec<(String, u64)> = Vec::new();
        let mut i: usize = 0;
        while i < self.variables.len()
            invariant
                i <= self.variables@.len(),
                variables@.len() == i,
                forall|j: int|
                    0 <= j < i ==> variables@[j].0@ == self.variables@[j].0@ && variables@[j].1
                        == self.variables@[j].1,
            decreases self.variables@.len() - i,
        {
            variables.push((self.variables[i].0.clone(), self.variables[i].1));
            i += 1;
        }
        proof {
            lemma_same_names(variables@, self.variables@);
            if distinct_names(self.variables@) {
                assert forall|a: int, b: int| 0 <= a < b < variables@.len() implies (
                #[trigger] variables@[a]).0@ != (#[trigger] variables@[b]).0@ by {
                    assert(self.variables@[a].0@ != self.variables@[b].0@);
                }
            }
        }
        Context { variables, angle_mode: self.angle_mode }
    }
}

/// Entries with the same names and values make the same bindings.
proof fn lemma_same_names(a: Seq<(String, u64)>, b: Seq<(String, u64)>)
    requires
        a.len() == b.len(),
        forall|j: int| 0 <= j < a.len() ==> a[j].0@ == b[j].0@ && a[j].1 == b[j].1,
    ensures
        bindings_of(a) == bindings_of(b),
    decreases a.len(),
{
    if a.len() > 0 {
        lemma_same_names(a.drop_last(), b.drop_last());
    }
}

} // verus!
