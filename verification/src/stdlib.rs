//! The host functions that a program can call by name.

use vstd::prelude::*;
use crate::error::{leaf, Error, ErrorType, ErrorView};
use crate::text::{chars_of, join};
use crate::util::{
    clone_objects, lemma_array_view, lemma_object_view, objects_view, same_text, ObjectView,
    RickrollObject,
};

verus! {

/// How many arguments a host function takes.
#[derive(Debug, Clone, Copy, PartialEq, Eq, Structural)]
pub enum Arity {
    /// Any number.
    Any,
    Exactly(usize),
}

/// The arity of the host function of that name, if there is one.
pub open spec fn builtin_arity(name: Seq<char>) -> Option<Arity> {
    if name == "ArrayOf"@ {
        Some(Arity::Any)
    } else if name == "ArrayPop"@ {
        Some(Arity::Exactly(2))
    } else if name == "ArrayPush"@ {
        Some(Arity::Exactly(3))
    } else if name == "ArrayReplace"@ {
        Some(Arity::Exactly(3))
    } else if name == "ArrayLength"@ {
        Some(Arity::Exactly(1))
    } else if name == "PutChar"@ {
        Some(Arity::Exactly(1))
    } else if name == "ReadLine"@ {
        Some(Arity::Exactly(0))
    } else {
        None
    }
}

/// Whether `count` arguments suit the arity.
pub open spec fn arity_admits(arity: Arity, count: nat) -> bool {
    match arity {
        Arity::Any => true,
        Arity::Exactly(n) => n == count,
    }
}

/// Looks a host function up by name.
pub fn builtin(name: &str) -> (r: Option<Arity>)
    ensures
        r == builtin_arity(name@),
{
    if same_text(name, "ArrayOf") {
        Some(Arity::Any)
    } else if same_text(name, "ArrayPop") {
        Some(Arity::Exactly(2))
    } else if same_text(name, "ArrayPush") {
        Some(Arity::Exactly(3))
    } else if same_text(name, "ArrayReplace") {
        Some(Arity::Exactly(3))
    } else if same_text(name, "ArrayLength") {
        Some(Arity::Exactly(1))
    } else if same_text(name, "PutChar") {
        Some(Arity::Exactly(1))
    } else if same_text(name, "ReadLine") {
        Some(Arity::Exactly(0))
    } else {
        None
    }
}

pub open spec fn wrong_count(name: Seq<char>) -> ErrorView {
    leaf(ErrorType::RuntimeError, "Wrong number of arguments for "@ + name, None)
}

pub open spec fn wrong_kind(name: Seq<char>) -> ErrorView {
    leaf(ErrorType::RuntimeError, "Wrong type of arguments for "@ + name, None)
}

pub open spec fn bad_index() -> ErrorView {
    leaf(ErrorType::IndexOutOfBoundsError, "Array Index out of Bounds"@, None)
}

/// `ArrayOf`: the array of the arguments.
pub open spec fn array_of_spec(args: Seq<ObjectView>) -> Result<ObjectView, ErrorView> {
    Ok(ObjectView::Array(args))
}

/// `ArrayPop`: the array without the item at the index.
pub open spec fn array_pop_spec(args: Seq<ObjectView>) -> Result<ObjectView, ErrorView> {
    if args.len() != 2 {
        Err(wrong_count("ArrayPop"@))
    } else {
        match (args[0], args[1]) {
            (ObjectView::Array(x), ObjectView::Int(y)) => if 0 <= y < x.len() {
                Ok(ObjectView::Array(x.remove(y as int)))
            } else {
                Err(bad_index())
            },
            _ => Err(wrong_kind("ArrayPop"@)),
        }
    }
}

/// `ArrayPush`: the array with the value put in at the index.
pub open spec fn array_push_spec(args: Seq<ObjectView>) -> Result<ObjectView, ErrorView> {
    if args.len() != 3 {
        Err(wrong_count("ArrayPush"@))
    } else {
        match (args[0], args[1]) {
            (ObjectView::Array(x), ObjectView::Int(y)) => if 0 <= y <= x.len() {
                Ok(ObjectView::Array(x.insert(y as int, args[2])))
            } else {
                Err(bad_index())
            },
            _ => Err(wrong_kind("ArrayPush"@)),
        }
    }
}

/// `ArrayReplace`: the array with the value in place of the item at the index.
pub open spec fn array_replace_spec(args: Seq<ObjectView>) -> Result<ObjectView, ErrorView> {
    if args.len() != 3 {
        Err(wrong_count("ArrayReplace"@))
    } else {
        match (args[0], args[1]) {
            (ObjectView::Array(x), ObjectView::Int(y)) => if 0 <= y < x.len() {
                Ok(ObjectView::Array(x.update(y as int, args[2])))
            } else {
                Err(bad_index())
            },
            _ => Err(wrong_kind("ArrayReplace"@)),
        }
    }
}

/// `ArrayLength`: the number of items, at most `i32::MAX`.
pub open spec fn array_length_spec(args: Seq<ObjectView>) -> Result<ObjectView, ErrorView> {
    if args.len() != 1 {
        Err(wrong_count("ArrayLength"@))
    } else {
        match args[0] {
            ObjectView::Array(x) => Ok(
                ObjectView::Int(
                    if x.len() <= i32::MAX {
                        x.len() as i32
                    } else {
                        i32::MAX
                    },
                ),
            ),
            _ => Err(wrong_kind("ArrayLength"@)),
        }
    }
}

/// `PutChar`: the character to write.
pub open spec fn put_char_spec(args: Seq<ObjectView>) -> Result<char, ErrorView> {
    if args.len() != 1 {
        Err(wrong_count("PutChar"@))
    } else {
        match args[0] {
            ObjectView::Char(c) => Ok(c),
            _ => Err(wrong_kind("PutChar"@)),
        }
    }
}

/// The characters of a line without its line terminators.
pub open spec fn line_chars(line: Seq<char>) -> Seq<ObjectView>
    decreases line.len(),
{
    if line.len() == 0 {
        Seq::empty()
    } else if line.last() == '\n' || line.last() == '\r' {
        line_chars(line.drop_last())
    } else {
        line_chars(line.drop_last()).push(ObjectView::Char(line.last()))
    }
}

/// `ReadLine`: the characters of the line that was read.
pub open spec fn read_line_spec(args: Seq<ObjectView>, line: Seq<char>) -> Result<
    ObjectView,
    ErrorView,
> {
    if args.len() != 0 {
        Err(wrong_count("ReadLine"@))
    } else {
        Ok(ObjectView::Array(line_chars(line)))
    }
}

/// What a result of a value is.
pub open spec fn value_result(r: Result<RickrollObject, Error>) -> Result<ObjectView, ErrorView> {
    match r {
        Ok(v) => Ok(v@),
        Err(e) => Err(e@),
    }
}

fn count_error(name: &str) -> (r: Error)
    ensures
        r@ == wrong_count(name@),
{
    Error::new(
        ErrorType::RuntimeError,
        join("Wrong number of arguments for ", name).as_str(),
        None,
    )
}

fn kind_error(name: &str) -> (r: Error)
    ensures
        r@ == wrong_kind(name@),
{
    Error::new(ErrorType::RuntimeError, join("Wrong type of arguments for ", name).as_str(), None)
}

fn index_error() -> (r: Error)
    ensures
        r@ == bad_index(),
{
    Error::new(ErrorType::IndexOutOfBoundsError, "Array Index out of Bounds", None)
}

/// `ArrayOf`: makes an array of its arguments.
pub fn array_of(args: Vec<RickrollObject>) -> (r: Result<RickrollObject, Error>)
    ensures
        value_result(r) == array_of_spec(objects_view(args@)),
{
    proof {
        lemma_array_view(args);
    }
    Ok(RickrollObject::Array(args))
}

/// `ArrayPop`: takes the item at an index out of an array.
pub fn array_pop(args: Vec<RickrollObject>) -> (r: Result<RickrollObject, Error>)
    ensures
        value_result(r) == array_pop_spec(objects_view(args@)),
{
    if args.len() != 2 {
        return Err(count_error("ArrayPop"));
    }
    proof {
        lemma_object_view(args[0]);
        lemma_object_view(args[1]);
    }
    match (&args[0], &args[1]) {
        (RickrollObject::Array(x), RickrollObject::Int(y)) => {
            if *y >= 0 && (*y as usize) < x.len() {
                let mut items = clone_objects(x);
                items.remove(*y as usize);
                proof {
                    lemma_array_view(items);
                    assert(objects_view(items@) =~= objects_view(x@).remove(*y as int));
                }
                Ok(RickrollObject::Array(items))
            } else {
                Err(index_error())
            }
        },
        _ => Err(kind_error("ArrayPop")),
    }
}

/// `ArrayPush`: puts a value into an array at an index.
pub fn array_push(args: Vec<RickrollObject>) -> (r: Result<RickrollObject, Error>)
    ensures
        value_result(r) == array_push_spec(objects_view(args@)),
{
    if args.len() != 3 {
        return Err(count_error("ArrayPush"));
    }
    proof {
        lemma_object_view(args[0]);
        lemma_object_view(args[1]);
    }
    match (&args[0], &args[1]) {
        (RickrollObject::Array(x), RickrollObject::Int(y)) => {
            if *y >= 0 && (*y as usize) <= x.len() {
                let mut items = clone_objects(x);
                let val = args[2].clone();
                items.insert(*y as usize, val);
                proof {
                    lemma_array_view(items);
                    assert(objects_view(items@) =~= objects_view(x@).insert(*y as int, val@));
                }
                Ok(RickrollObject::Array(items))
            } else {
                Err(index_error())
            }
        },
        _ => Err(kind_error("ArrayPush")),
    }
}

/// `ArrayReplace`: puts a value in place of the item at an index.
pub fn array_replace(args: Vec<RickrollObject>) -> (r: Result<RickrollObject, Error>)
    ensures
        value_result(r) == array_replace_spec(objects_view(args@)),
{
    if args.len() != 3 {
        return Err(count_error("ArrayReplace"));
    }
    proof {
        lemma_object_view(args[0]);
        lemma_object_view(args[1]);
    }
    match (&args[0], &args[1]) {
        (RickrollObject::Array(x), RickrollObject::Int(y)) => {
            if *y >= 0 && (*y as usize) < x.len() {
                let mut items = clone_objects(x);
                let val = args[2].clone();
                items.set(*y as usize, val);
                proof {
                    lemma_array_view(items);
                    assert(objects_view(items@) =~= objects_view(x@).update(*y as int, val@));
                }
                Ok(RickrollObject::Array(items))
            } else {
                Err(index_error())
            }
        },
        _ => Err(kind_error("ArrayReplace")),
    }
}

/// `ArrayLength`: the number of items of an array.
pub fn array_length(args: Vec<RickrollObject>) -> (r: Result<RickrollObject, Error>)
    ensures
        value_result(r) == array_length_spec(objects_view(args@)),
{
    if args.len() != 1 {
        return Err(count_error("ArrayLength"));
    }
    proof {
        lemma_object_view(args[0]);
    }
    match &args[0] {
        RickrollObject::Array(x) => {
            let n: i32 = if x.len() <= 0x7fff_ffff {
                x.len() as i32
            } else {
                i32::MAX
            };
            let r = RickrollObject::Int(n);
            proof {
                lemma_object_view(r);
            }
            Ok(r)
        },
        _ => Err(kind_error("ArrayLength")),
    }
}

/// The character that `PutChar` writes.
pub fn put_char(args: Vec<RickrollObject>) -> (r: Result<char, Error>)
    ensures
        match r {
            Ok(c) => put_char_spec(objects_view(args@)) == Ok::<char, ErrorView>(c),
            Err(e) => put_char_spec(objects_view(args@)) == Err::<char, ErrorView>(e@),
        },
{
    if args.len() != 1 {
        return Err(count_error("PutChar"));
    }
    proof {
        lemma_object_view(args[0]);
    }
    match &args[0] {
        RickrollObject::Char(x) => Ok(*x),
        _ => Err(kind_error("PutChar")),
    }
}

fn push_char_item(arr: &mut Vec<RickrollObject>, c: char)
    ensures
        objects_view(final(arr)@) == objects_view(old(arr)@).push(ObjectView::Char(c)),
{
    let item = RickrollObject::Char(c);
    proof {
        lemma_object_view(item);
    }
    arr.push(item);
    assert(objects_view(arr@) =~= objects_view(old(arr)@).push(ObjectView::Char(c)));
}

/// The value that `ReadLine` makes of the line that the host read.
pub fn read_line(args: Vec<RickrollObject>, line: &str) -> (r: Result<RickrollObject, Error>)
    ensures
        value_result(r) == read_line_spec(objects_view(args@), line@),
{
    if args.len() != 0 {
        return Err(count_error("ReadLine"));
    }
    let chars = chars_of(line);
    let mut arr: Vec<RickrollObject> = Vec::new();
    let mut i: usize = 0;
    assert(objects_view(arr@) =~= line_chars(chars@.subrange(0, 0)));
    while i < chars.len()
        invariant
            i <= chars.len(),
            objects_view(arr@) == line_chars(chars@.subrange(0, i as int)),
        decreases chars.len() - i,
    {
        let c = chars[i];
        let ghost prefix = chars@.subrange(0, i + 1);
        assert(prefix.drop_last() =~= chars@.subrange(0, i as int));
        if c == '\n' || c == '\r' {
        } else {
            push_char_item(&mut arr, c);
        }
        i += 1;
    }
    assert(chars@.subrange(0, chars.len() as int) =~= chars@);
    proof {
        lemma_array_view(arr);
    }
    Ok(RickrollObject::Array(arr))
}

} // verus!
