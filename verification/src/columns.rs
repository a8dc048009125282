use vstd::prelude::*;

verus! {

/// ASCII lower-casing of one byte: letters A..Z map to a..z, everything
/// else is unchanged.
pub open spec fn lower_byte(b: u8) -> u8 {
    if 65 <= b <= 90 {
        (b + 32) as u8
    } else {
        b
    }
}

/// Case-insensitive equality of two byte strings (ASCII case only).
pub open spec fn eq_ignore_case_spec(a: Seq<u8>, b: Seq<u8>) -> bool {
    a.len() == b.len() && forall|i: int|
        0 <= i < a.len() ==> #[trigger] lower_byte(a[i]) == lower_byte(b[i])
}

/// Whether header `h` equals one of the candidate names, ignoring ASCII
/// case.
pub open spec fn matches_any(h: Seq<u8>, cands: Seq<Vec<u8>>) -> bool {
    exists|j: int| 0 <= j < cands.len() && #[trigger] eq_ignore_case_spec(h, cands[j]@)
}

/// ASCII lower-casing of one byte.
fn lower(b: u8) -> (r: u8)
    ensures
        r == lower_byte(b),
{
    if 65 <= b && b <= 90 {
        b + 32
    } else {
        b
    }
}

/// Case-insensitive comparison of two byte strings (ASCII case only).
#[verifier::loop_isolation(false)]
pub fn eq_ignore_case(a: &Vec<u8>, b: &Vec<u8>) -> (r: bool)
    ensures
        r == eq_ignore_case_spec(a@, b@),
{
    if a.len() != b.len() {
        return false;
    }
    let n = a.len();
    let mut i: usize = 0;
    while i < n
        invariant
            i <= n,
            forall|k: int| 0 <= k < i ==> #[trigger] lower_byte(a@[k]) == lower_byte(b@[k]),
        decreases n - i,
    {
        if lower(a[i]) != lower(b[i]) {
            return false;
        }
        i = i + 1;
    }
    true
}

/// Whether the header matches any of the candidate names, ignoring
/// ASCII case.
#[verifier::loop_isolation(false)]
pub fn matches_any_candidate(h: &Vec<u8>, cands: &Vec<Vec<u8>>) -> (r: bool)
    ensures
        r == matches_any(h@, cands@),
{
    let n = cands.len();
    let mut j: usize = 0;
    while j < n
        invariant
            j <= n,
            forall|k: int| 0 <= k < j ==> !#[trigger] eq_ignore_case_spec(h@, cands@[k]@),
        decreases n - j,
    {
        if eq_ignore_case(h, &cands[j]) {
            return true;
        }
        j = j + 1;
    }
    false
}

/// The first header that matches one of the candidate column names,
/// ignoring ASCII case; `None` when no header matches.
#[verifier::loop_isolation(false)]
pub fn find_coordinate_column(headers: &Vec<Vec<u8>>, cands: &Vec<Vec<u8>>) -> (r: Option<usize>)
    ensures
        match r {
            Some(i) => i < headers@.len() && matches_any(headers@[i as int]@, cands@) && forall|
                k: int,
            | 0 <= k < i ==> !matches_any(#[trigger] headers@[k]@, cands@),
            None => forall|k: int|
                0 <= k < headers@.len() ==> !matches_any(#[trigger] headers@[k]@, cands@),
        },
{
    let n = headers.len();
    let mut i: usize = 0;
    while i < n
        invariant
            i <= n,
            forall|k: int| 0 <= k < i ==> !matches_any(#[trigger] headers@[k]@, cands@),
        decreases n - i,
    {
        if matches_any_candidate(&headers[i], cands) {
            return Some(i);
        }
        i = i + 1;
    }
    None
}

} // verus!
