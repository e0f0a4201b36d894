//! What a line editor needs to offer completions: the names of the
//! functions, of the commands and of the variables.

use vstd::prelude::*;
use crate::text::{char_is_alphanumeric, chars_of, is_alphanumeric, push_chars, same_text, starts_with};

verus! {

/// The texts of a list of strings.
pub open spec fn texts(names: Seq<String>) -> Seq<Seq<char>> {
    Seq::new(names.len(), |i: int| names[i]@)
}

/// The names of the functions, in the order in which they are offered.
pub open spec fn function_names() -> Seq<Seq<char>> {
    seq![
        "sin"@,
        "cos"@,
        "tan"@,
        "asin"@,
        "acos"@,
        "atan"@,
        "sqrt"@,
        "abs"@,
        "ln"@,
        "log"@,
        "exp"@,
        "floor"@,
        "ceil"@,
        "round"@,
        "pow"@,
        "max"@,
        "min"@,
    ]
}

/// The names of the commands, in the order in which they are offered.
pub open spec fn command_names() -> Seq<Seq<char>> {
    seq!["help"@, "exit"@, "quit"@, "vars"@, "deg"@, "rad"@, "grad"@, "mode"@]
}

/// Whether `c` can stand in a name.
pub open spec fn is_word_char(c: char) -> bool {
    char_is_alphanumeric(c) || c == '_'
}

/// The index at which the word that ends before index `pos` begins.
pub open spec fn word_start(line: Seq<char>, pos: int) -> int
    decreases pos,
{
    if 0 < pos <= line.len() && is_word_char(line[pos - 1]) {
        word_start(line, pos - 1)
    } else {
        pos
    }
}

/// Those of `names` that begin with `word`, in their order.
pub open spec fn matching(names: Seq<Seq<char>>, word: Seq<char>) -> Seq<Seq<char>>
    decreases names.len(),
{
    if names.len() == 0 {
        Seq::empty()
    } else if word.is_prefix_of(names.last()) {
        matching(names.drop_last(), word).push(names.last())
    } else {
        matching(names.drop_last(), word)
    }
}

/// What is left of the first of `names` that begins with `word` and is
/// longer, when `word` is taken from its front.
pub open spec fn first_ending(names: Seq<Seq<char>>, word: Seq<char>) -> Option<Seq<char>>
    decreases names.len(),
{
    if names.len() == 0 {
        None
    } else if word.is_prefix_of(names[0]) && names[0] != word {
        Some(names[0].subrange(word.len() as int, names[0].len() as int))
    } else {
        first_ending(names.drop_first(), word)
    }
}

/// The names that a line editor completes.
pub struct CalcHelper {
    functions: Vec<String>,
    commands: Vec<String>,
    variables: Vec<String>,
}

impl CalcHelper {
    /// The names of the functions.
    pub closed spec fn functions(&self) -> Seq<Seq<char>> {
        texts(self.functions@)
    }

    /// The names of the commands.
    pub closed spec fn commands(&self) -> Seq<Seq<char>> {
        texts(self.commands@)
    }

    /// The names of the variables.
    pub closed spec fn variables(&self) -> Seq<Seq<char>> {
        texts(self.variables@)
    }

    /// A helper that knows the functions and the commands, and no variable.
    pub fn new() -> (helper: Self)
        ensures
            helper.functions() == function_names(),
            helper.commands() == command_names(),
            helper.variables() == Seq::<Seq<char>>::empty(),
    {
        let mut functions: Vec<String> = Vec::new();
        functions.push(String::from_str("sin"));
        functions.push(String::from_str("cos"));
        functions.push(String::from_str("tan"));
        functions.push(String::from_str("asin"));
        functions.push(String::from_str("acos"));
        functions.push(String::from_str("atan"));
        functions.push(String::from_str("sqrt"));
        functions.push(String::from_str("abs"));
        functions.push(String::from_str("ln"));
        functions.push(String::from_str("log"));
        functions.push(String::from_str("exp"));
        functions.push(String::from_str("floor"));
        functions.push(String::from_str("ceil"));
        functions.push(String::from_str("round"));
        functions.push(String::from_str("pow"));
        functions.push(String::from_str("max"));
        functions.push(String::from_str("min"));
        let mut commands: Vec<String> = Vec::new();
        commands.push(String::from_str("help"));
        commands.push(String::from_str("exit"));
        commands.push(String::from_str("quit"));
        commands.push(String::from_str("vars"));
        commands.push(String::from_str("deg"));
        commands.push(String::from_str("rad"));
        commands.push(String::from_str("grad"));
        commands.push(String::from_str("mode"));
        let variables: Vec<String> = Vec::new();
        assert(texts(functions@) =~= function_names());
        assert(texts(commands@) =~= command_names());
        assert(texts(variables@) =~= Seq::<Seq<char>>::empty());
        CalcHelper { functions, commands, variables }
    }

    /// Replaces the names of the variables.
    pub fn update_variables(&mut self, vars: Vec<String>)
        ensures
            final(self).variables() == texts(vars@),
            final(self).functions() == old(self).functions(),
            final(self).commands() == old(self).commands(),
    {
        self.variables = vars;
    }

    /// Adds the name of a variable, unless it is there already.
    pub fn add_variable(&mut self, var: String)
        ensures
            final(self).variables() == if old(self).variables().contains(var@) {
                old(self).variables()
            } else {
                old(self).variables().push(var@)
            },
            final(self).functions() == old(self).functions(),
            final(self).commands() == old(self).commands(),
    {
        let mut i: usize = 0;
        while i < self.variables.len()
            invariant
                i <= self.variables@.len(),
                self.variables@ == old(self).variables@,
                self.functions@ == old(self).functions@,
                self.commands@ == old(self).commands@,
                forall|j: int| 0 <= j < i ==> texts(self.variables@)[j] != var@,
            decreases self.variables@.len() - i,
        {
            if same_text(self.variables[i].as_str(), var.as_str()) {
                assert(texts(self.variables@)[i as int] == var@);
                return ;
            }
            i += 1;
        }
        let ghost before = texts(self.variables@);
        self.variables.push(var);
        assert(texts(self.variables@) =~= before.push(var@));
    }

    /// The word to complete in `line` when the cursor stands before index
    /// `pos`, counted in characters and taken as the end of the line where
    /// it lies beyond: the index at which the word begins, and the word.
    pub open spec fn word_at(line: Seq<char>, pos: int) -> (int, Seq<char>) {
        let end = if pos > line.len() {
            line.len() as int
        } else {
            pos
        };
        (word_start(line, end), line.subrange(word_start(line, end), end))
    }

    /// The completions of the word before the cursor: the functions, then
    /// the variables, then, for a word at the start of the line, the
    /// commands.  No word has no completions.
    pub open spec fn completions(&self, line: Seq<char>, pos: int) -> Seq<Seq<char>> {
        let (start, word) = Self::word_at(line, pos);
        if word.len() == 0 {
            Seq::empty()
        } else if start == 0 {
            matching(self.functions(), word) + matching(self.variables(), word) + matching(
                self.commands(),
                word,
            )
        } else {
            matching(self.functions(), word) + matching(self.variables(), word)
        }
    }

    /// The hint for the word at the end of the line: what is left of the
    /// first name that begins with it and is longer, among the functions,
    /// then the variables, then, for a word at the start of the line, the
    /// commands.
    pub open spec fn hinted(&self, line: Seq<char>, pos: int) -> Option<Seq<char>> {
        let (start, word) = Self::word_at(line, pos);
        if pos < line.len() || word.len() == 0 {
            None
        } else if first_ending(self.functions(), word) is Some {
            first_ending(self.functions(), word)
        } else if first_ending(self.variables(), word) is Some {
            first_ending(self.variables(), word)
        } else if start == 0 {
            first_ending(self.commands(), word)
        } else {
            None
        }
    }

    /// The index at which the word to complete begins, or `pos` where
    /// there is no word, and the completions of the word.
    pub fn complete(&self, line: &str, pos: usize) -> (r: (usize, Vec<String>))
        ensures
            texts(r.1@) == self.completions(line@, pos as int),
            r.0 == if Self::word_at(line@, pos as int).1.len() == 0 {
                pos as int
            } else {
                Self::word_at(line@, pos as int).0
            },
    {
        let chars = chars_of(line);
        let (start, word) = Self::find_word(&chars, pos);
        let mut candidates: Vec<String> = Vec::new();
        assert(texts(candidates@) =~= Seq::<Seq<char>>::empty());
        if word.len() == 0 {
            return (pos, candidates);
        }
        Self::collect(&self.functions, &word, &mut candidates);
        Self::collect(&self.variables, &word, &mut candidates);
        if start == 0 {
            Self::collect(&self.commands, &word, &mut candidates);
        }
        proof {
            let f = matching(self.functions(), word@);
            let v = matching(self.variables(), word@);
            let c = matching(self.commands(), word@);
            assert(Seq::<Seq<char>>::empty() + f =~= f);
        }
        (start, candidates)
    }

    /// The hint for the word at the end of the line.
    pub fn hint(&self, line: &str, pos: usize) -> (r: Option<String>)
        ensures
            match self.hinted(line@, pos as int) {
                Some(rest) => r matches Some(s) && s@ == rest,
                None => r is None,
            },
    {
        let chars = chars_of(line);
        if pos < chars.len() {
            return None;
        }
        let (start, word) = Self::find_word(&chars, pos);
        if word.len() == 0 {
            return None;
        }
        match Self::first_longer(&self.functions, &word) {
            Some(rest) => {
                return Some(rest);
            },
            None => {},
        }
        match Self::first_longer(&self.variables, &word) {
            Some(rest) => {
                return Some(rest);
            },
            None => {},
        }
        if start == 0 {
            Self::first_longer(&self.commands, &word)
        } else {
            None
        }
    }

    fn find_word(chars: &Vec<char>, pos: usize) -> (r: (usize, Vec<char>))
        ensures
            r.0 == Self::word_at(chars@, pos as int).0,
            r.1@ == Self::word_at(chars@, pos as int).1,
    {
        let end = if pos > chars.len() {
            chars.len()
        } else {
            pos
        };
        let mut start = end;
        while start > 0 && (is_alphanumeric(chars[start - 1]) || chars[start - 1] == '_')
            invariant
                start <= end <= chars.len(),
                word_start(chars@, start as int) == word_start(chars@, end as int),
            decreases start,
        {
            start -= 1;
        }
        let mut word: Vec<char> = Vec::new();
        let mut i = start;
        while i < end
            invariant
                start <= i <= end <= chars.len(),
                word@ == chars@.subrange(start as int, i as int),
            decreases end - i,
        {
            word.push(chars[i]);
            i += 1;
        }
        (start, word)
    }

    fn collect(names: &Vec<String>, word: &Vec<char>, candidates: &mut Vec<String>)
        ensures
            texts(final(candidates)@) == texts(old(candidates)@) + matching(texts(names@), word@),
    {
        let ghost before = texts(candidates@);
        let mut i: usize = 0;
        assert(texts(names@).take(0) =~= Seq::<Seq<char>>::empty());
        assert(before + Seq::<Seq<char>>::empty() =~= before);
        while i < names.len()
            invariant
                i <= names.len(),
                texts(candidates@) == before + matching(texts(names@).take(i as int), word@),
            decreases names.len() - i,
        {
            let ghost found = matching(texts(names@).take(i as int), word@);
            let ghost shown = texts(candidates@);
            assert(texts(names@).take(i + 1).drop_last() =~= texts(names@).take(i as int));
            assert(texts(names@).take(i + 1).last() == names@[i as int]@);
            let name = chars_of(names[i].as_str());
            if starts_with(&name, word) {
                candidates.push(names[i].clone());
                assert(texts(candidates@) =~= shown.push(names@[i as int]@));
                assert(before + found.push(names@[i as int]@) =~= shown.push(names@[i as int]@));
            }
            i += 1;
        }
        assert(texts(names@).take(i as int) =~= texts(names@));
    }

    fn first_longer(names: &Vec<String>, word: &Vec<char>) -> (r: Option<String>)
        ensures
            match first_ending(texts(names@), word@) {
                Some(rest) => r matches Some(s) && s@ == rest,
                None => r is None,
            },
    {
        let mut i: usize = 0;
        assert(texts(names@).skip(0) =~= texts(names@));
        while i < names.len()
            invariant
                i <= names.len(),
                first_ending(texts(names@), word@) == first_ending(
                    texts(names@).skip(i as int),
                    word@,
                ),
            decreases names.len() - i,
        {
            assert(texts(names@).skip(i as int).drop_first() =~= texts(names@).skip(i + 1));
            assert(texts(names@).skip(i as int)[0] == names@[i as int]@);
            let name = chars_of(names[i].as_str());
            if starts_with(&name, word) && name.len() != word.len() {
                let mut rest = String::new();
                push_chars(&mut rest, &name, word.len(), name.len());
                assert(rest@ =~= name@.subrange(word@.len() as int, name@.len() as int));
                return Some(rest);
            }
            proof {
                if word@.is_prefix_of(name@) && name@.len() == word@.len() {
                    assert(name@ =~= word@);
                }
            }
            i += 1;
        }
        assert(texts(names@).skip(i as int) =~= Seq::<Seq<char>>::empty());
        None
    }
}

} // verus!
