//! The person record, the create-input shape, and its field validation.

use vstd::prelude::*;
use crate::date::{date_of_text, parse_date, Date};

verus! {

/// Longest nick, in characters.
pub const NICK_MAX: u64 = 32;

/// Longest name, in characters.
pub const NAME_MAX: u64 = 100;

/// Longest stack entry, in characters.
pub const STACK_ENTRY_MAX: u64 = 32;

/// A stored person. The store-maintained search text is not part of it.
#[derive(Clone, Debug, PartialEq, Eq)]
pub struct Person {
    pub id: u128,
    pub nick: String,
    pub name: String,
    pub birthday: Date,
    pub stack: Option<Vec<Option<String>>>,
}

/// What a client sends to create a person: everything but the identifier.
#[derive(Clone, Debug, PartialEq, Eq)]
pub struct NewPerson {
    pub nick: String,
    pub name: String,
    pub birthday: Date,
    pub stack: Option<Vec<String>>,
}

/// A person as a mathematical value.
pub struct PersonView {
    pub id: u128,
    pub nick: Seq<char>,
    pub name: Seq<char>,
    pub birthday: Date,
    pub stack: Option<Seq<Option<Seq<char>>>>,
}

/// The view of a nullable stack entry.
pub open spec fn entry_view(e: Option<String>) -> Option<Seq<char>> {
    match e {
        Some(s) => Some(s@),
        None => None,
    }
}

impl View for Person {
    type V = PersonView;

    open spec fn view(&self) -> PersonView {
        PersonView {
            id: self.id,
            nick: self.nick@,
            name: self.name@,
            birthday: self.birthday,
            stack: match self.stack {
                Some(v) => Some(v@.map_values(|e: Option<String>| entry_view(e))),
                None => None,
            },
        }
    }
}

/// Why a create input was refused before it reached the store.
#[derive(Clone, Copy, Debug, PartialEq, Eq, Structural)]
pub enum ValidationError {
    /// The nick is empty or longer than 32 characters.
    Nick,
    /// The name is empty or longer than 100 characters.
    Name,
    /// The stack entry at this index is longer than 32 characters.
    StackEntry(usize),
    /// The birthday is not an existing day written `YYYY-MM-DD`.
    Birthday,
}

/// Relies on `validator::ValidateLength::validate_length` for `str`: the length
/// is the number of characters, and both bounds are inclusive.
#[verifier::external_body]
fn char_count_within(s: &str, min: u64, max: u64) -> (r: bool)
    ensures
        r == (min <= s@.len() && s@.len() <= max),
{
    validator::ValidateLength::<u64>::validate_length(s, Some(min), Some(max), None)
}

/// `k` is the first index of `stack` whose entry is longer than 32 characters.
pub open spec fn first_long_entry(stack: Seq<String>, k: int) -> bool {
    &&& 0 <= k < stack.len()
    &&& stack[k]@.len() > STACK_ENTRY_MAX
    &&& forall|j: int| 0 <= j < k ==> stack[j]@.len() <= STACK_ENTRY_MAX
}

/// Checks that every stack entry is at most 32 characters long.
pub fn validate_stack(stack: &Vec<String>) -> (r: Result<(), ValidationError>)
    ensures
        r is Ok <==> forall|i: int| 0 <= i < stack@.len() ==> stack@[i]@.len() <= STACK_ENTRY_MAX,
        r matches Err(e) ==> (e matches ValidationError::StackEntry(k) && first_long_entry(stack@, k as int)),
{
    let mut i: usize = 0;
    while i < stack.len()
        invariant
            i <= stack@.len(),
            forall|j: int| 0 <= j < i ==> stack@[j]@.len() <= STACK_ENTRY_MAX,
        decreases stack@.len() - i,
    {
        if !char_count_within(stack[i].as_str(), 0, STACK_ENTRY_MAX) {
            return Err(ValidationError::StackEntry(i));
        }
        i = i + 1;
    }
    Ok(())
}

/// The field rules that a create input must meet.
pub open spec fn nick_ok(nick: Seq<char>) -> bool {
    1 <= nick.len() <= NICK_MAX
}

pub open spec fn name_ok(name: Seq<char>) -> bool {
    1 <= name.len() <= NAME_MAX
}

pub open spec fn stack_ok(stack: Option<Vec<String>>) -> bool {
    match stack {
        Some(v) => forall|i: int| 0 <= i < v@.len() ==> v@[i]@.len() <= STACK_ENTRY_MAX,
        None => true,
    }
}

impl NewPerson {
    /// The input meets every field rule, and its birthday exists.
    pub open spec fn valid(&self) -> bool {
        nick_ok(self.nick@) && name_ok(self.name@) && stack_ok(self.stack) && self.birthday.wf()
    }

    /// `e` is the error for this input: it names the first field, in the
    /// order nick, name, stack, that breaks its rule.
    pub open spec fn rejects_with(&self, e: ValidationError) -> bool {
        match e {
            ValidationError::Nick => !nick_ok(self.nick@),
            ValidationError::Name => nick_ok(self.nick@) && !name_ok(self.name@),
            ValidationError::StackEntry(k) => nick_ok(self.nick@) && name_ok(self.name@) && match self.stack {
                Some(v) => first_long_entry(v@, k as int),
                None => false,
            },
            ValidationError::Birthday => false,
        }
    }

    /// The create input from its fields as a client writes them, the birthday
    /// as text; fails with `Birthday` when that text is not a date.
    pub fn from_fields(nick: String, name: String, birthday: &str, stack: Option<Vec<String>>) -> (r: Result<NewPerson, ValidationError>)
        ensures
            r is Ok <==> date_of_text(birthday@) is Some,
            r matches Ok(n) ==> n.nick == nick && n.name == name && n.stack == stack
                && Some(n.birthday) == date_of_text(birthday@) && n.birthday.wf(),
            r matches Err(e) ==> e == ValidationError::Birthday,
    {
        match parse_date(birthday) {
            Some(d) => Ok(NewPerson { nick, name, birthday: d, stack }),
            None => Err(ValidationError::Birthday),
        }
    }

    /// Checks the field rules, in the order nick, name, stack: the error names
    /// the first field that breaks its rule.
    pub fn validate(&self) -> (r: Result<(), ValidationError>)
        requires
            self.birthday.wf(),
        ensures
            r is Ok <==> self.valid(),
            r matches Err(e) ==> self.rejects_with(e),
    {
        if !char_count_within(self.nick.as_str(), 1, NICK_MAX) {
            return Err(ValidationError::Nick);
        }
        if !char_count_within(self.name.as_str(), 1, NAME_MAX) {
            return Err(ValidationError::Name);
        }
        match &self.stack {
            Some(v) => validate_stack(v),
            None => Ok(()),
        }
    }
}

/// The record that a valid create input becomes under identifier `id`:
/// every stack entry is present.
pub open spec fn person_from(id: u128, new: NewPerson) -> PersonView {
    PersonView {
        id,
        nick: new.nick@,
        name: new.name@,
        birthday: new.birthday,
        stack: match new.stack {
            Some(v) => Some(v@.map_values(|s: String| Some(s@))),
            None => None,
        },
    }
}

/// `id` carries the version number 7 (time-ordered) and the RFC 4122 variant.
pub open spec fn is_time_ordered_id(id: u128) -> bool {
    (id >> 76u128) & 0xfu128 == 7 && (id >> 62u128) & 3u128 == 2
}

/// Relies on `uuid::Uuid::now_v7` and `Uuid::as_u128`: a fresh time-ordered
/// identifier, whose version nibble is 7 and whose variant bits are `10`.
#[verifier::external_body]
fn new_time_ordered_id() -> (r: u128)
    ensures
        is_time_ordered_id(r),
{
    uuid::Uuid::now_v7().as_u128()
}

impl Person {
    /// A copy of the record.
    pub fn duplicate(&self) -> (r: Person)
        ensures
            r@ == self@,
    {
        let stack = match &self.stack {
            Some(v) => {
                let mut out: Vec<Option<String>> = Vec::new();
                let mut i: usize = 0;
                while i < v.len()
                    invariant
                        i <= v@.len(),
                        out@.len() == i,
                        forall|j: int| 0 <= j < i ==> entry_view(#[trigger] out@[j]) == entry_view(v@[j]),
                    decreases v@.len() - i,
                {
                    let e = match &v[i] {
                        Some(t) => Some(t.clone()),
                        None => None,
                    };
                    out.push(e);
                    i = i + 1;
                }
                assert(out@.map_values(|e: Option<String>| entry_view(e)) =~= v@.map_values(|e: Option<String>| entry_view(e)));
                Some(out)
            },
            None => None,
        };
        Person {
            id: self.id,
            nick: self.nick.clone(),
            name: self.name.clone(),
            birthday: self.birthday,
            stack,
        }
    }

    /// The record for a create input under the identifier `id`.
    pub fn from_new(id: u128, new: NewPerson) -> (r: Person)
        ensures
            r@ == person_from(id, new),
    {
        let stack = match &new.stack {
            Some(v) => {
                let mut out: Vec<Option<String>> = Vec::new();
                let mut i: usize = 0;
                while i < v.len()
                    invariant
                        i <= v@.len(),
                        out@.len() == i,
                        forall|j: int| 0 <= j < i ==> entry_view(#[trigger] out@[j]) == Some(v@[j]@),
                    decreases v@.len() - i,
                {
                    out.push(Some(v[i].clone()));
                    i = i + 1;
                }
                Some(out)
            },
            None => None,
        };
        let r = Person { id, nick: new.nick, name: new.name, birthday: new.birthday, stack };
        assert(r@.stack == person_from(id, new).stack);
        r
    }
}

/// Validates a create input and, when it passes, gives it a fresh
/// time-ordered identifier. The store is not involved.
pub fn prepare_person(new: NewPerson) -> (r: Result<Person, ValidationError>)
    requires
        new.birthday.wf(),
    ensures
        r is Ok <==> new.valid(),
        r matches Err(e) ==> new.rejects_with(e),
        r matches Ok(p) ==> p@ == person_from(p.id, new) && is_time_ordered_id(p.id),
{
    match new.validate() {
        Ok(()) => {
            let id = new_time_ordered_id();
            Ok(Person::from_new(id, new))
        },
        Err(e) => Err(e),
    }
}

} // verus!
