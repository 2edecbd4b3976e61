//! Executable forms of the tree predicates that drive the layout decisions.
use vstd::prelude::*;

use crate::model::{ArrayElem, BlockEntry, BlockItem, FieldValue, Structure};
use crate::names::is_special_name;
use crate::render_spec::{
    arr_any_struct, arr_forced_multiline, arr_has_block, block_complex, elem_forced_multiline, elem_has_block,
    item_complex, struct_has_block, val_forced_multiline, val_has_arr_struct, val_has_block,
};

verus! {

pub fn struct_block_check(s: &Structure) -> (r: bool)
    ensures
        r == struct_has_block(*s),
{
    let mut i: usize = 0;
    while i < s.fields.len()
        invariant
            i <= s.fields@.len(),
            forall|j: int| 0 <= j < i ==> !((#[trigger] s.fields@[j]).value is Block),
        decreases s.fields@.len() - i,
    {
        match &s.fields[i].value {
            FieldValue::Block(_) => {
                return true;
            },
            _ => {},
        }
        i = i + 1;
    }
    false
}

pub fn elem_block_check(e: &ArrayElem) -> (r: bool)
    ensures
        r == elem_has_block(*e),
{
    match e {
        ArrayElem::Struct(s) => struct_block_check(s),
        _ => false,
    }
}

pub fn elem_forced_check(e: &ArrayElem) -> (r: bool)
    ensures
        r == elem_forced_multiline(*e),
{
    match e {
        ArrayElem::Struct(s) => is_special_name(&s.name),
        _ => false,
    }
}

pub fn arr_block_check(es: &Vec<ArrayElem>) -> (r: bool)
    ensures
        r == arr_has_block(es@),
{
    let mut i: usize = 0;
    while i < es.len()
        invariant
            i <= es@.len(),
            forall|j: int| 0 <= j < i ==> !elem_has_block(#[trigger] es@[j]),
        decreases es@.len() - i,
    {
        if elem_block_check(&es[i]) {
            return true;
        }
        i = i + 1;
    }
    false
}

pub fn arr_forced_check(es: &Vec<ArrayElem>) -> (r: bool)
    ensures
        r == arr_forced_multiline(es@),
{
    let mut i: usize = 0;
    while i < es.len()
        invariant
            i <= es@.len(),
            forall|j: int| 0 <= j < i ==> !elem_forced_multiline(#[trigger] es@[j]),
        decreases es@.len() - i,
    {
        if elem_forced_check(&es[i]) {
            return true;
        }
        i = i + 1;
    }
    false
}

pub fn val_block_check(v: &FieldValue) -> (r: bool)
    ensures
        r == val_has_block(*v),
{
    match v {
        FieldValue::Block(_) => true,
        FieldValue::Arr(es) => arr_block_check(es),
        _ => false,
    }
}

pub fn val_arr_struct_check(v: &FieldValue) -> (r: bool)
    ensures
        r == val_has_arr_struct(*v),
{
    match v {
        FieldValue::Arr(es) => arr_any_struct_check(es),
        _ => false,
    }
}

pub fn arr_any_struct_check(es: &Vec<ArrayElem>) -> (r: bool)
    ensures
        r == arr_any_struct(es@),
{
    let mut i: usize = 0;
    while i < es.len()
        invariant
            i <= es@.len(),
            forall|j: int| 0 <= j < i ==> !((#[trigger] es@[j]) is Struct),
        decreases es@.len() - i,
    {
        match &es[i] {
            ArrayElem::Struct(_) => {
                proof {
                    assert(arr_any_struct(es@)) by {
                        assert(0 <= i < es@.len() && (es@[i as int]) is Struct);
                    }
                }
                return true;
            },
            _ => {},
        }
        i = i + 1;
    }
    false
}

pub fn val_forced_check(v: &FieldValue) -> (r: bool)
    ensures
        r == val_forced_multiline(*v),
{
    match v {
        FieldValue::Arr(es) => arr_forced_check(es),
        _ => false,
    }
}

pub fn item_complex_check(it: &BlockItem) -> (r: bool)
    ensures
        r == item_complex(*it),
{
    match it {
        BlockItem::Struct(_) => true,
        BlockItem::Val(v) => val_block_check(v) || val_arr_struct_check(v),
        BlockItem::Comment(_) => false,
    }
}

pub fn block_complex_check(es: &Vec<BlockEntry>) -> (r: bool)
    ensures
        r == block_complex(es@),
{
    let mut i: usize = 0;
    while i < es.len()
        invariant
            i <= es@.len(),
            forall|j: int| 0 <= j < i ==> !item_complex((#[trigger] es@[j]).item),
        decreases es@.len() - i,
    {
        if item_complex_check(&es[i].item) {
            return true;
        }
        i = i + 1;
    }
    false
}

} // verus!
