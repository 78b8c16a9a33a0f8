//! Decoding helpers for the broker integration: the access bitmap of a
//! feature, the direction it implies, and the tidying of property names
//! into display names.

use vstd::prelude::*;

use crate::device::ValueDirection;
use vstd::std_specs::iter::IteratorSpec;

verus! {

broadcast use vstd::std_specs::vec::group_vec_axioms, vstd::seq::group_seq_axioms;

/// The access bitmap a broker reports for a feature: published, writable,
/// readable.
#[derive(Debug, Clone, Copy, PartialEq, Eq, Structural)]
pub struct Access(pub u8);

impl Access {
    /// The value of this feature is published on a channel.
    pub fn published(&self) -> (r: bool)
        ensures
            r == (self.0 & 0x01 == 0x01),
    {
        self.0 & 0x01 == 0x01
    }

    /// The value of this feature can be written.
    pub fn write(&self) -> (r: bool)
        ensures
            r == (self.0 & 0x02 == 0x02),
    {
        self.0 & 0x02 == 0x02
    }

    /// The stateful value of this feature can be read back.
    pub fn read(&self) -> (r: bool)
        ensures
            r == (self.0 & 0x04 == 0x04),
    {
        self.0 & 0x04 == 0x04
    }
}

/// The direction an access bitmap implies: published values are sources,
/// writable ones sinks; a feature that is neither is rejected.
pub fn direction_of_access(acc: &Access) -> (r: Result<ValueDirection, ()>)
    ensures
        match r {
            Ok(d) => d == (if acc.0 & 0x01 == 0x01 && acc.0 & 0x02 == 0x02 {
                ValueDirection::SourceSink
            } else if acc.0 & 0x01 == 0x01 {
                ValueDirection::Source
            } else {
                ValueDirection::Sink
            }) && (acc.0 & 0x01 == 0x01 || acc.0 & 0x02 == 0x02),
            Err(_) => acc.0 & 0x01 != 0x01 && acc.0 & 0x02 != 0x02,
        },
{
    let p = acc.published();
    let w = acc.write();
    if p && w {
        Ok(ValueDirection::SourceSink)
    } else if p {
        Ok(ValueDirection::Source)
    } else if w {
        Ok(ValueDirection::Sink)
    } else {
        Err(())
    }
}

/// The characters of a name with underscores turned into spaces.
pub open spec fn space_mapped(s: Seq<char>) -> Seq<char> {
    s.map_values(
        |c: char|
            if c == '_' {
                ' '
            } else {
                c
            },
    )
}

/// What `char::to_uppercase` yields for a character.
pub uninterp spec fn upper_of(c: char) -> Seq<char>;

/// What `char::to_lowercase` yields for a character.
pub uninterp spec fn lower_of(c: char) -> Seq<char>;

/// Relies on `char::to_uppercase`: the Unicode uppercase mapping of the
/// character, a function of the character alone.
#[verifier::external_body]
fn char_upper(c: char) -> (r: String)
    ensures
        r@ == upper_of(c),
{
    c.to_uppercase().collect()
}

/// Relies on `char::to_lowercase`: the Unicode lowercase mapping of the
/// character, a function of the character alone.
#[verifier::external_body]
fn char_lower(c: char) -> (r: String)
    ensures
        r@ == lower_of(c),
{
    c.to_lowercase().collect()
}

/// Relies on `String::from(char)`: a string of exactly that character.
#[verifier::external_body]
fn char_string(c: char) -> (r: String)
    ensures
        r@ == seq![c],
{
    String::from(c)
}

/// A property name tidied for display: underscores become spaces and the
/// first character is uppercased.
pub open spec fn spec_clean_name(s: Seq<char>) -> Seq<char> {
    if s.len() == 0 {
        Seq::empty()
    } else {
        upper_of(space_mapped(s)[0]) + space_mapped(s).skip(1)
    }
}

/// Tidy a broker property name into a display name.
pub fn clean_up_name(name: &str) -> (r: String)
    ensures
        r@ == spec_clean_name(name@),
{
    broadcast use vstd::string::group_string_axioms;

    let ghost nv = name@;
    let mut out = String::new();
    let mut it = name.chars();
    let mut first: bool = true;
    let ghost mut k: int = 0;
    proof {
        assert(it.remaining() == nv);
        assert(nv.skip(0) =~= nv);
    }
    loop
        invariant
            0 <= k <= nv.len(),
            first == (k == 0),
            it.remaining() == nv.skip(k),
            out@ == (if k == 0 {
                Seq::<char>::empty()
            } else {
                upper_of(space_mapped(nv)[0]) + space_mapped(nv).subrange(1, k)
            }),
        ensures
            k == nv.len(),
            out@ == (if k == 0 {
                Seq::<char>::empty()
            } else {
                upper_of(space_mapped(nv)[0]) + space_mapped(nv).subrange(1, k)
            }),
        decreases nv.len() - k,
    {
        let c = match it.next() {
            Some(c) => c,
            None => {
                break ;
            },
        };
        proof {
            assert(nv.skip(k)[0] == nv[k]);
            assert(nv.skip(k).drop_first() =~= nv.skip(k + 1));
        }
        let mapped = if c == '_' {
            ' '
        } else {
            c
        };
        proof {
            assert(space_mapped(nv)[k] == mapped);
        }
        if first {
            let up = char_upper(mapped);
            out.append(up.as_str());
            proof {
                assert(out@ =~= upper_of(space_mapped(nv)[0]) + space_mapped(nv).subrange(1, 1));
            }
        } else {
            let cs = char_string(mapped);
            out.append(cs.as_str());
            proof {
                assert(out@ =~= upper_of(space_mapped(nv)[0]) + space_mapped(nv).subrange(
                    1,
                    k + 1,
                ));
            }
        }
        first = false;
        proof {
            k = k + 1;
        }
    }
    proof {
        if nv.len() > 0 {
            assert(space_mapped(nv).subrange(1, nv.len() as int) =~= space_mapped(nv).skip(1));
        }
    }
    out
}

/// A name with its first character lowercased.
pub open spec fn spec_lower_first(s: Seq<char>) -> Seq<char> {
    if s.len() == 0 {
        Seq::empty()
    } else {
        lower_of(s[0]) + s.skip(1)
    }
}

/// Lowercase the first character of a name, as code generation does for
/// method names.
pub fn lower_case_first_char(s: &str) -> (r: String)
    ensures
        r@ == spec_lower_first(s@),
{
    broadcast use vstd::string::group_string_axioms;

    let ghost nv = s@;
    let mut out = String::new();
    let mut it = s.chars();
    let mut first: bool = true;
    let ghost mut k: int = 0;
    proof {
        assert(it.remaining() == nv);
        assert(nv.skip(0) =~= nv);
    }
    loop
        invariant
            0 <= k <= nv.len(),
            first == (k == 0),
            it.remaining() == nv.skip(k),
            out@ == (if k == 0 {
                Seq::<char>::empty()
            } else {
                lower_of(nv[0]) + nv.subrange(1, k)
            }),
        ensures
            k == nv.len(),
            out@ == (if k == 0 {
                Seq::<char>::empty()
            } else {
                lower_of(nv[0]) + nv.subrange(1, k)
            }),
        decreases nv.len() - k,
    {
        let c = match it.next() {
            Some(c) => c,
            None => {
                break ;
            },
        };
        proof {
            assert(nv.skip(k)[0] == nv[k]);
            assert(nv.skip(k).drop_first() =~= nv.skip(k + 1));
        }
        if first {
            let lo = char_lower(c);
            out.append(lo.as_str());
            proof {
                assert(out@ =~= lower_of(nv[0]) + nv.subrange(1, 1));
            }
        } else {
            let cs = char_string(c);
            out.append(cs.as_str());
            proof {
                assert(out@ =~= lower_of(nv[0]) + nv.subrange(1, k + 1));
            }
        }
        first = false;
        proof {
            k = k + 1;
        }
    }
    proof {
        if nv.len() > 0 {
            assert(nv.subrange(1, nv.len() as int) =~= nv.skip(1));
        }
    }
    out
}

} // verus!
