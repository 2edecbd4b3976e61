//! The fixed sets of structure names that the layout policy treats
//! specially: names forced to block layout, and the quoted-literal prefixes
//! that mark an embedded structure for conversion to array syntax.
use vstd::prelude::*;

verus! {

/// The bytes of `check-properties`.
pub open spec fn check_properties_text() -> Seq<u8> {
    seq![99u8, 104u8, 101u8, 99u8, 107u8, 45u8, 112u8, 114u8, 111u8, 112u8, 101u8, 114u8, 116u8, 105u8, 101u8, 115u8]
}

/// The bytes of `check-child-properties`.
pub open spec fn check_child_properties_text() -> Seq<u8> {
    seq![99u8, 104u8, 101u8, 99u8, 107u8, 45u8, 99u8, 104u8, 105u8, 108u8, 100u8, 45u8, 112u8, 114u8, 111u8, 112u8, 101u8, 114u8, 116u8, 105u8, 101u8, 115u8]
}

/// The bytes of `set-child-properties`.
pub open spec fn set_child_properties_text() -> Seq<u8> {
    seq![115u8, 101u8, 116u8, 45u8, 99u8, 104u8, 105u8, 108u8, 100u8, 45u8, 112u8, 114u8, 111u8, 112u8, 101u8, 114u8, 116u8, 105u8, 101u8, 115u8]
}

/// The bytes of `set-properties`.
pub open spec fn set_properties_text() -> Seq<u8> {
    seq![115u8, 101u8, 116u8, 45u8, 112u8, 114u8, 111u8, 112u8, 101u8, 114u8, 116u8, 105u8, 101u8, 115u8]
}

/// The bytes of `expected-issue`.
pub open spec fn expected_issue_text() -> Seq<u8> {
    seq![101u8, 120u8, 112u8, 101u8, 99u8, 116u8, 101u8, 100u8, 45u8, 105u8, 115u8, 115u8, 117u8, 101u8]
}

/// The bytes of `change-severity`.
pub open spec fn change_severity_text() -> Seq<u8> {
    seq![99u8, 104u8, 97u8, 110u8, 103u8, 101u8, 45u8, 115u8, 101u8, 118u8, 101u8, 114u8, 105u8, 116u8, 121u8]
}

/// The bytes of `expected-issue,`.
pub open spec fn expected_issue_prefix_text() -> Seq<u8> {
    seq![101u8, 120u8, 112u8, 101u8, 99u8, 116u8, 101u8, 100u8, 45u8, 105u8, 115u8, 115u8, 117u8, 101u8, 44u8]
}

/// The bytes of `change-severity,`.
pub open spec fn change_severity_prefix_text() -> Seq<u8> {
    seq![99u8, 104u8, 97u8, 110u8, 103u8, 101u8, 45u8, 115u8, 101u8, 118u8, 101u8, 114u8, 105u8, 116u8, 121u8, 44u8]
}

/// Structure names that are always rendered in block form, never inline.
pub open spec fn spec_is_special(n: Seq<u8>) -> bool {
    n == check_properties_text() || n == check_child_properties_text()
        || n == set_child_properties_text() || n == set_properties_text()
        || n == expected_issue_text() || n == change_severity_text()
}

/// Structure names whose array form is always rendered in block form when
/// they come from a converted quoted literal.
pub open spec fn spec_is_embed_name(n: Seq<u8>) -> bool {
    n == expected_issue_text() || n == change_severity_text()
}

/// The unquoted content of a literal marks it for conversion when it starts
/// with one of the two convertible structure names followed by a comma.
pub open spec fn spec_has_embed_prefix(inner: Seq<u8>) -> bool {
    (inner.len() >= 15 && inner.subrange(0, 15) == expected_issue_prefix_text())
        || (inner.len() >= 16 && inner.subrange(0, 16) == change_severity_prefix_text())
}

fn eq_check_properties(n: &Vec<u8>) -> (r: bool)
    ensures
        r == (n@ == check_properties_text()),
{
    let r = n.len() == 16 && n[0] == 99u8 && n[1] == 104u8 && n[2] == 101u8 && n[3] == 99u8 && n[4] == 107u8 && n[5] == 45u8 && n[6] == 112u8 && n[7] == 114u8 && n[8] == 111u8 && n[9] == 112u8 && n[10] == 101u8 && n[11] == 114u8 && n[12] == 116u8 && n[13] == 105u8 && n[14] == 101u8 && n[15] == 115u8;
    proof {
        if r {
            assert(n@ =~= check_properties_text());
        }
    }
    r
}

fn eq_check_child_properties(n: &Vec<u8>) -> (r: bool)
    ensures
        r == (n@ == check_child_properties_text()),
{
    let r = n.len() == 22 && n[0] == 99u8 && n[1] == 104u8 && n[2] == 101u8 && n[3] == 99u8 && n[4] == 107u8 && n[5] == 45u8 && n[6] == 99u8 && n[7] == 104u8 && n[8] == 105u8 && n[9] == 108u8 && n[10] == 100u8 && n[11] == 45u8 && n[12] == 112u8 && n[13] == 114u8 && n[14] == 111u8 && n[15] == 112u8 && n[16] == 101u8 && n[17] == 114u8 && n[18] == 116u8 && n[19] == 105u8 && n[20] == 101u8 && n[21] == 115u8;
    proof {
        if r {
            assert(n@ =~= check_child_properties_text());
        }
    }
    r
}

fn eq_set_child_properties(n: &Vec<u8>) -> (r: bool)
    ensures
        r == (n@ == set_child_properties_text()),
{
    let r = n.len() == 20 && n[0] == 115u8 && n[1] == 101u8 && n[2] == 116u8 && n[3] == 45u8 && n[4] == 99u8 && n[5] == 104u8 && n[6] == 105u8 && n[7] == 108u8 && n[8] == 100u8 && n[9] == 45u8 && n[10] == 112u8 && n[11] == 114u8 && n[12] == 111u8 && n[13] == 112u8 && n[14] == 101u8 && n[15] == 114u8 && n[16] == 116u8 && n[17] == 105u8 && n[18] == 101u8 && n[19] == 115u8;
    proof {
        if r {
            assert(n@ =~= set_child_properties_text());
        }
    }
    r
}

fn eq_set_properties(n: &Vec<u8>) -> (r: bool)
    ensures
        r == (n@ == set_properties_text()),
{
    let r = n.len() == 14 && n[0] == 115u8 && n[1] == 101u8 && n[2] == 116u8 && n[3] == 45u8 && n[4] == 112u8 && n[5] == 114u8 && n[6] == 111u8 && n[7] == 112u8 && n[8] == 101u8 && n[9] == 114u8 && n[10] == 116u8 && n[11] == 105u8 && n[12] == 101u8 && n[13] == 115u8;
    proof {
        if r {
            assert(n@ =~= set_properties_text());
        }
    }
    r
}

fn eq_expected_issue(n: &Vec<u8>) -> (r: bool)
    ensures
        r == (n@ == expected_issue_text()),
{
    let r = n.len() == 14 && n[0] == 101u8 && n[1] == 120u8 && n[2] == 112u8 && n[3] == 101u8 && n[4] == 99u8 && n[5] == 116u8 && n[6] == 101u8 && n[7] == 100u8 && n[8] == 45u8 && n[9] == 105u8 && n[10] == 115u8 && n[11] == 115u8 && n[12] == 117u8 && n[13] == 101u8;
    proof {
        if r {
            assert(n@ =~= expected_issue_text());
        }
    }
    r
}

fn eq_change_severity(n: &Vec<u8>) -> (r: bool)
    ensures
        r == (n@ == change_severity_text()),
{
    let r = n.len() == 15 && n[0] == 99u8 && n[1] == 104u8 && n[2] == 97u8 && n[3] == 110u8 && n[4] == 103u8 && n[5] == 101u8 && n[6] == 45u8 && n[7] == 115u8 && n[8] == 101u8 && n[9] == 118u8 && n[10] == 101u8 && n[11] == 114u8 && n[12] == 105u8 && n[13] == 116u8 && n[14] == 121u8;
    proof {
        if r {
            assert(n@ =~= change_severity_text());
        }
    }
    r
}

pub fn is_special_name(n: &Vec<u8>) -> (r: bool)
    ensures
        r == spec_is_special(n@),
{
    eq_check_properties(n) || eq_check_child_properties(n) || eq_set_child_properties(n)
        || eq_set_properties(n) || eq_expected_issue(n) || eq_change_severity(n)
}

pub fn is_embed_name(n: &Vec<u8>) -> (r: bool)
    ensures
        r == spec_is_embed_name(n@),
{
    eq_expected_issue(n) || eq_change_severity(n)
}

fn starts_expected_issue_prefix(inner: &Vec<u8>) -> (r: bool)
    ensures
        r == (inner@.len() >= 15 && inner@.subrange(0, 15) == expected_issue_prefix_text()),
{
    let r = inner.len() >= 15 && inner[0] == 101u8 && inner[1] == 120u8 && inner[2] == 112u8 && inner[3] == 101u8 && inner[4] == 99u8 && inner[5] == 116u8 && inner[6] == 101u8 && inner[7] == 100u8 && inner[8] == 45u8 && inner[9] == 105u8 && inner[10] == 115u8 && inner[11] == 115u8 && inner[12] == 117u8 && inner[13] == 101u8 && inner[14] == 44u8;
    proof {
        if r {
            assert(inner@.subrange(0, 15) =~= expected_issue_prefix_text());
        } else {
            if inner@.len() >= 15 && inner@.subrange(0, 15) == expected_issue_prefix_text() {
                assert(forall|i: int|
                    0 <= i < 15 ==> inner@[i] == #[trigger] inner@.subrange(0, 15)[i]);
            }
        }
    }
    r
}

fn starts_change_severity_prefix(inner: &Vec<u8>) -> (r: bool)
    ensures
        r == (inner@.len() >= 16 && inner@.subrange(0, 16) == change_severity_prefix_text()),
{
    let r = inner.len() >= 16 && inner[0] == 99u8 && inner[1] == 104u8 && inner[2] == 97u8 && inner[3] == 110u8 && inner[4] == 103u8 && inner[5] == 101u8 && inner[6] == 45u8 && inner[7] == 115u8 && inner[8] == 101u8 && inner[9] == 118u8 && inner[10] == 101u8 && inner[11] == 114u8 && inner[12] == 105u8 && inner[13] == 116u8 && inner[14] == 121u8 && inner[15] == 44u8;
    proof {
        if r {
            assert(inner@.subrange(0, 16) =~= change_severity_prefix_text());
        } else {
            if inner@.len() >= 16 && inner@.subrange(0, 16) == change_severity_prefix_text() {
                assert(forall|i: int|
                    0 <= i < 16 ==> inner@[i] == #[trigger] inner@.subrange(0, 16)[i]);
            }
        }
    }
    r
}

pub fn has_embed_prefix(inner: &Vec<u8>) -> (r: bool)
    ensures
        r == spec_has_embed_prefix(inner@),
{
    starts_expected_issue_prefix(inner) || starts_change_severity_prefix(inner)
}

} // verus!
