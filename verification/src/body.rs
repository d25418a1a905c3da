//! Request and response bodies.
//!
//! A body type knows three things: its JSON-shaped wire payload, which
//! payload texts decode to which values, and the zero value used when a
//! request carries no body.  The codec is generic over this capability, so
//! callers pick the body type per endpoint while the request framing stays
//! the same.

use vstd::prelude::*;

use crate::text::is_trimmed_char;
use crate::text::spec_trim;

verus! {

/// Capability interface of a request or response body type.
///
/// `decodes_to` relates payload texts to values instead of returning a
/// value, because two heap values with equal contents need not be equal;
/// `decoding_inverts` pins the relation down: a text decodes only to values
/// that encode back to that very text.
pub trait HttpBody: Sized {
    /// Well-formed values: those whose wire payload decodes back to the
    /// value itself.
    spec fn wf(&self) -> bool;

    /// The JSON-shaped wire payload of this value.
    spec fn encoding(&self) -> Seq<char>;

    /// Whether the payload text `s` decodes to the value `v`.
    spec fn decodes_to(s: Seq<char>, v: Self) -> bool;

    /// Whether this is the type-defined zero value, used when a request
    /// carries no body or the payload does not decode.
    spec fn is_zero(&self) -> bool;

    /// Builds the zero value.
    fn zero() -> (b: Self)
        ensures
            b.is_zero(),
    ;

    /// Renders this value's wire payload.
    fn encode(&self) -> (s: String)
        ensures
            s@ == self.encoding(),
    ;

    /// Decodes a payload text; reports `None` exactly when the text decodes
    /// to no value at all.
    fn decode(s: &str) -> (r: Option<Self>)
        ensures
            r matches Some(v) ==> Self::decodes_to(s@, v),
            r is None ==> forall|v: Self| !Self::decodes_to(s@, v),
    ;

    /// An encoded well-formed value decodes back to itself, and its payload
    /// carries nothing that body trimming would strip.
    proof fn payload_round_trip(&self)
        requires
            self.wf(),
        ensures
            Self::decodes_to(self.encoding(), *self),
            spec_trim(self.encoding()) == self.encoding(),
    ;

    /// A payload text decodes only to well-formed values that encode back
    /// to that very text.
    proof fn decoding_inverts(s: Seq<char>, v: Self)
        requires
            Self::decodes_to(s, v),
        ensures
            v.encoding() == s,
            v.wf(),
    ;
}

/// Characters allowed inside the quoted payload of a `TextBody`: everything
/// printable except the two JSON string delimiters.  Control characters
/// stay out so that a payload always fits on one wire line.
pub open spec fn is_plain_text_char(c: char) -> bool {
    c != '"' && c != '\\' && 0x20 <= (c as u32) && (c as u32) != 0x7f
}

/// Run-time check for `is_plain_text_char`.
pub fn is_plain_char(c: char) -> (b: bool)
    ensures
        b == is_plain_text_char(c),
{
    let u = c as u32;
    c != '"' && c != '\\' && 0x20 <= u && u != 0x7f
}

/// A body holding one line of plain text, framed on the wire as a JSON
/// string.
pub struct TextBody {
    pub text: String,
}

/// Whether `s` is a quoted run of plain characters.
pub open spec fn is_quoted_plain(s: Seq<char>) -> bool {
    s.len() >= 2 && s[0] == '"' && s[s.len() - 1] == '"' && (forall|k: int|
        1 <= k < s.len() - 1 ==> is_plain_text_char(#[trigger] s[k]))
}

impl HttpBody for TextBody {
    /// Well-formed when every character is plain, so that the quoted frame
    /// is unambiguous.
    open spec fn wf(&self) -> bool {
        forall|k: int| 0 <= k < self.text@.len() ==> is_plain_text_char(#[trigger] self.text@[k])
    }

    /// The text between two quote characters.
    open spec fn encoding(&self) -> Seq<char> {
        seq!['"'] + self.text@ + seq!['"']
    }

    /// A quoted run of plain characters decodes to the text between the
    /// quotes; anything else does not decode.
    open spec fn decodes_to(s: Seq<char>, v: TextBody) -> bool {
        is_quoted_plain(s) && v.text@ == s.subrange(1, s.len() - 1)
    }

    open spec fn is_zero(&self) -> bool {
        self.text@ == Seq::<char>::empty()
    }

    fn zero() -> (b: TextBody) {
        TextBody { text: String::new() }
    }

    fn encode(&self) -> (s: String) {
        let mut s = String::from_str("\"");
        s.append(self.text.as_str());
        s.append("\"");
        proof {
            reveal_strlit("\"");
            assert(s@ =~= self.encoding());
        }
        s
    }

    fn decode(s: &str) -> (r: Option<TextBody>) {
        let n = s.unicode_len();
        if n < 2 || s.get_char(0) != '"' || s.get_char(n - 1) != '"' {
            proof {
                assert(!is_quoted_plain(s@));
            }
            return None;
        }
        let mut k: usize = 1;
        while k < n - 1 && is_plain_char(s.get_char(k))
            invariant
                n == s@.len(),
                2 <= n,
                1 <= k <= n - 1,
                forall|j: int| 1 <= j < k ==> is_plain_text_char(#[trigger] s@[j]),
            decreases n - k,
        {
            k = k + 1;
        }
        if k < n - 1 {
            proof {
                assert(!is_plain_text_char(s@[k as int]));
                assert(!is_quoted_plain(s@));
            }
            return None;
        }
        let inner = String::from_str(s.substring_char(1, n - 1));
        proof {
            assert(is_quoted_plain(s@));
            assert(inner@ == s@.subrange(1, s@.len() - 1));
        }
        Some(TextBody { text: inner })
    }

    proof fn payload_round_trip(&self) {
        let e = self.encoding();
        assert(e[0] == '"');
        assert(e[e.len() - 1] == '"');
        assert(forall|k: int| 1 <= k < e.len() - 1 ==> is_plain_text_char(#[trigger] e[k]));
        assert(e.subrange(1, e.len() - 1) =~= self.text@);
        assert(!is_trimmed_char(e[0]));
        assert(!is_trimmed_char(e[e.len() - 1]));
        crate::text::lemma_trim_clean(e);
    }

    proof fn decoding_inverts(s: Seq<char>, v: TextBody) {
        assert(v.encoding() =~= s);
    }
}

/// The body of a project-creation request: an empty JSON object.
#[derive(Clone, Copy, Debug, PartialEq, Eq, Structural)]
pub struct ProjectPayload {}

impl HttpBody for ProjectPayload {
    open spec fn wf(&self) -> bool {
        true
    }

    open spec fn encoding(&self) -> Seq<char> {
        "{}"@
    }

    /// Exactly the two-character empty object decodes.
    open spec fn decodes_to(s: Seq<char>, v: ProjectPayload) -> bool {
        s == "{}"@
    }

    open spec fn is_zero(&self) -> bool {
        true
    }

    fn zero() -> (b: ProjectPayload) {
        ProjectPayload {  }
    }

    fn encode(&self) -> (s: String) {
        String::from_str("{}")
    }

    fn decode(s: &str) -> (r: Option<ProjectPayload>) {
        proof {
            reveal_strlit("{}");
        }
        let n = s.unicode_len();
        if n == 2 && s.get_char(0) == '{' && s.get_char(1) == '}' {
            proof {
                assert(s@ =~= "{}"@);
            }
            Some(ProjectPayload {  })
        } else {
            proof {
                if s@ == "{}"@ {
                    assert(s@.len() == 2 && s@[0] == '{' && s@[1] == '}');
                }
            }
            None
        }
    }

    proof fn payload_round_trip(&self) {
        reveal_strlit("{}");
        assert(spec_trim(self.encoding()) =~= self.encoding()) by {
            crate::text::lemma_trim_clean("{}"@);
        }
    }

    proof fn decoding_inverts(s: Seq<char>, v: ProjectPayload) {
    }
}

} // verus!
