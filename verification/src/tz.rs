//! Time zones, held by their IANA names.

use vstd::prelude::*;
use vstd::std_specs::cmp::PartialEqSpecImpl;

verus! {

/// Whether the IANA database compiled into `chrono_tz` holds a zone under
/// exactly this name: the outcome of `<chrono_tz::Tz as FromStr>::from_str`.
pub uninterp spec fn tz_known(name: Seq<char>) -> bool;

/// Looks `name` up with `chrono_tz::Tz::from_str`, which consults a static
/// table keyed by zone name. The contract only names the outcome.
#[verifier::external_body]
fn tz_lookup(name: &str) -> (found: bool)
    ensures
        found == tz_known(name@),
{
    name.parse::<chrono_tz::Tz>().is_ok()
}

/// Characters that zone names are made of.
pub open spec fn tz_name_char(c: char) -> bool {
    ||| 'a' <= c <= 'z'
    ||| 'A' <= c <= 'Z'
    ||| '0' <= c <= '9'
    ||| c == '/'
    ||| c == '_'
    ||| c == '+'
    ||| c == '-'
}

/// A non-empty name over the zone-name alphabet.
pub open spec fn tz_name_plain(name: Seq<char>) -> bool {
    &&& name.len() > 0
    &&& forall|i: int| 0 <= i < name.len() ==> tz_name_char(#[trigger] name[i])
}

/// The name of the default zone.
pub open spec fn utc_name() -> Seq<char> {
    seq!['U', 'T', 'C']
}

/// The names that denote a time zone: `UTC`, and every plain name that the
/// zone database knows.
pub open spec fn tz_name_valid(name: Seq<char>) -> bool {
    name == utc_name() || (tz_name_plain(name) && tz_known(name))
}

/// A time zone, held by its IANA name.
#[derive(Debug, Eq, Hash)]
pub struct Tz {
    name: String,
}

impl View for Tz {
    type V = Seq<char>;

    closed spec fn view(&self) -> Seq<char> {
        self.name@
    }
}

fn name_is_plain(chars: &Vec<char>) -> (b: bool)
    ensures
        b == tz_name_plain(chars@),
{
    if chars.len() == 0 {
        return false;
    }
    let mut i: usize = 0;
    while i < chars.len()
        invariant
            i <= chars.len(),
            forall|j: int| 0 <= j < i ==> tz_name_char(#[trigger] chars[j]),
        decreases chars.len() - i,
    {
        let c = chars[i];
        let ok = ('a' <= c && c <= 'z') || ('A' <= c && c <= 'Z') || ('0' <= c && c <= '9')
            || c == '/' || c == '_' || c == '+' || c == '-';
        if !ok {
            return false;
        }
        i += 1;
    }
    true
}

impl Tz {
    /// Whether the zone's name denotes a time zone. Every constructor
    /// establishes this.
    pub open spec fn wf(&self) -> bool {
        tz_name_valid(self@)
    }

    /// The zone `UTC`.
    pub fn utc() -> (tz: Tz)
        ensures
            tz@ == utc_name(),
            tz.wf(),
    {
        proof {
            reveal_strlit("UTC");
        }
        let name = "UTC".to_owned();
        assert(name@ =~= utc_name());
        Tz { name }
    }

    /// The zone called `name`, if the name denotes one.
    pub fn from_name(name: &str) -> (r: Option<Tz>)
        ensures
            tz_name_valid(name@) <==> r is Some,
            r matches Some(tz) ==> tz@ == name@ && tz.wf(),
    {
        let chars = crate::text::str_chars(name);
        proof {
            reveal_strlit("UTC");
        }
        let utc = crate::text::str_chars("UTC");
        assert(utc@ =~= utc_name());
        if crate::text::chars_equal(&chars, &utc) || (name_is_plain(&chars) && tz_lookup(name)) {
            Some(Tz { name: name.to_owned() })
        } else {
            None
        }
    }

    /// The zone's name.
    pub fn name(&self) -> (s: &str)
        ensures
            s@ == self@,
    {
        self.name.as_str()
    }

    /// Whether two zones carry the same name.
    pub fn same_zone(&self, other: &Tz) -> (b: bool)
        ensures
            b == (self@ == other@),
    {
        self.name == other.name
    }
}

impl PartialEq for Tz {
    fn eq(&self, other: &Tz) -> (r: bool) {
        self.same_zone(other)
    }
}

impl PartialEqSpecImpl for Tz {
    open spec fn obeys_eq_spec() -> bool {
        true
    }

    /// Two zones are equal where their names are.
    open spec fn eq_spec(&self, other: &Tz) -> bool {
        self@ == other@
    }
}

impl Clone for Tz {
    fn clone(&self) -> (tz: Tz)
        ensures
            tz@ == self@,
    {
        Tz { name: self.name.clone() }
    }
}

} // verus!
