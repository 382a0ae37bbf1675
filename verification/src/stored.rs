//! Small values that the database stores as JSON text: the six flags of
//! a character's constellations or potentials, and lists of names. Text
//! that does not hold such a value reads as the default.
use vstd::prelude::*;

verus! {

/// The six flags `serde_json::from_str::<[bool; 6]>` reads from a text,
/// or none when the text does not hold exactly six booleans in a JSON
/// array.
pub uninterp spec fn json_six_flags(text: Seq<char>) -> Option<Seq<bool>>;

/// The names `serde_json::from_str::<Vec<String>>` reads from a text, or
/// none when the text does not hold a JSON array of strings.
pub uninterp spec fn json_names(text: Seq<char>) -> Option<Seq<Seq<char>>>;

/// The names of a list, as plain text.
pub open spec fn names_view(v: Seq<String>) -> Seq<Seq<char>> {
    v.map_values(|s: String| s@)
}

/// Wraps `serde_json::from_str::<[bool; 6]>`, a parse that depends on
/// the text alone; a parse error becomes `None`.
#[verifier::external_body]
fn parse_six_flags(text: &str) -> (r: Option<[bool; 6]>)
    ensures
        json_six_flags(text@) == (match r {
            Some(a) => Some(a@),
            None => None,
        }),
{
    match serde_json::from_str::<[bool; 6]>(text) {
        Ok(a) => Some(a),
        Err(_) => None,
    }
}

/// Wraps `serde_json::from_str::<Vec<String>>`, a parse that depends on
/// the text alone; a parse error becomes `None`.
#[verifier::external_body]
fn parse_names(text: &str) -> (r: Option<Vec<String>>)
    ensures
        json_names(text@) == (match r {
            Some(v) => Some(names_view(v@)),
            None => None,
        }),
{
    match serde_json::from_str::<Vec<String>>(text) {
        Ok(v) => Some(v),
        Err(_) => None,
    }
}

/// The six flags of a parse, all unset when the text held none.
pub fn flags_or_unset(parsed: Option<[bool; 6]>) -> (r: [bool; 6])
    ensures
        r@ == (match parsed {
            Some(a) => a@,
            None => seq![false, false, false, false, false, false],
        }),
{
    match parsed {
        Some(a) => a,
        None => {
            let a = [false; 6];
            assert(a@ =~= seq![false, false, false, false, false, false]);
            a
        },
    }
}

/// The names of a parse, none when the text held none.
pub fn names_or_empty(parsed: Option<Vec<String>>) -> (r: Vec<String>)
    ensures
        names_view(r@) == (match parsed {
            Some(v) => names_view(v@),
            None => Seq::<Seq<char>>::empty(),
        }),
{
    match parsed {
        Some(v) => v,
        None => {
            let v: Vec<String> = Vec::new();
            assert(names_view(v@) =~= Seq::<Seq<char>>::empty());
            v
        },
    }
}

/// The six flags a stored text holds, all unset when it holds none.
pub fn stored_flags(text: &str) -> (r: [bool; 6])
    ensures
        r@ == (match json_six_flags(text@) {
            Some(f) => f,
            None => seq![false, false, false, false, false, false],
        }),
{
    flags_or_unset(parse_six_flags(text))
}

/// The names a stored text holds, none when it holds no list of names.
pub fn stored_names(text: &str) -> (r: Vec<String>)
    ensures
        names_view(r@) == (match json_names(text@) {
            Some(n) => n,
            None => Seq::<Seq<char>>::empty(),
        }),
{
    names_or_empty(parse_names(text))
}

} // verus!
