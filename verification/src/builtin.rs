//! The fixed builtin-function registry: the tag enum, the name table,
//! and the native implementations callable from user code.
use vstd::prelude::*;

use crate::object::ErrV;
use crate::object::EvalError;
use crate::object::ObjV;
use crate::object::Object;
use crate::object::kind_of;
use crate::object::lemma_objs_view_index;
use crate::object::lemma_objs_view_len;
use crate::object::obj_view;
use crate::object::objs_view;
use crate::object::res_view;
use crate::token::str_eq_chars;

verus! {

broadcast use vstd::std_specs::vec::group_vec_axioms, vstd::seq::group_seq_axioms;

/// The tag of a builtin function. `NotBuiltIn` is the answer of the name
/// table for a name that is not a builtin.
#[derive(Debug, Clone, Copy, PartialEq, Eq, Structural)]
pub enum BuiltInFnt {
    NotBuiltIn,
    Len,
    First,
    Last,
    Rest,
    Push,
}

/// The builtin name table: which tag a source-level identifier denotes.
pub open spec fn builtin_of_name_spec(s: Seq<char>) -> BuiltInFnt {
    if s == "len"@ {
        BuiltInFnt::Len
    } else if s == "first"@ {
        BuiltInFnt::First
    } else if s == "last"@ {
        BuiltInFnt::Last
    } else if s == "rest"@ {
        BuiltInFnt::Rest
    } else if s == "push"@ {
        BuiltInFnt::Push
    } else {
        BuiltInFnt::NotBuiltIn
    }
}

/// What a builtin computes from its argument list.
///
/// Each builtin validates its exact arity first. `len` counts the
/// characters of a string or the elements of an array; `first`, `last`
/// and `rest` read an array, yielding `Null` when it is empty; `push`
/// yields a new array with the element appended, never mutating its
/// argument. A value of the wrong kind is reported with its type tag.
pub open spec fn builtin_call_spec(tag: BuiltInFnt, args: Seq<ObjV>) -> Result<ObjV, ErrV> {
    match tag {
        BuiltInFnt::Len => if args.len() != 1 {
            Err(ErrV::WrongArgCount { builtin: tag, expected: 1, got: args.len() as int })
        } else {
            match args[0] {
                ObjV::Str { value } => if value.len() > i64::MAX {
                    Err(ErrV::Overflow)
                } else {
                    Ok(ObjV::Integer { value: value.len() as i64 })
                },
                ObjV::Array { elems } => if elems.len() > i64::MAX {
                    Err(ErrV::Overflow)
                } else {
                    Ok(ObjV::Integer { value: elems.len() as i64 })
                },
                _ => Err(ErrV::WrongArgKind { builtin: tag, got: kind_of(args[0]) }),
            }
        },
        BuiltInFnt::First => if args.len() != 1 {
            Err(ErrV::WrongArgCount { builtin: tag, expected: 1, got: args.len() as int })
        } else {
            match args[0] {
                ObjV::Array { elems } => if elems.len() > 0 {
                    Ok(elems[0])
                } else {
                    Ok(ObjV::Null)
                },
                _ => Err(ErrV::WrongArgKind { builtin: tag, got: kind_of(args[0]) }),
            }
        },
        BuiltInFnt::Last => if args.len() != 1 {
            Err(ErrV::WrongArgCount { builtin: tag, expected: 1, got: args.len() as int })
        } else {
            match args[0] {
                ObjV::Array { elems } => if elems.len() > 0 {
                    Ok(elems.last())
                } else {
                    Ok(ObjV::Null)
                },
                _ => Err(ErrV::WrongArgKind { builtin: tag, got: kind_of(args[0]) }),
            }
        },
        BuiltInFnt::Rest => if args.len() != 1 {
            Err(ErrV::WrongArgCount { builtin: tag, expected: 1, got: args.len() as int })
        } else {
            match args[0] {
                ObjV::Array { elems } => if elems.len() > 0 {
                    Ok(ObjV::Array { elems: elems.drop_first() })
                } else {
                    Ok(ObjV::Null)
                },
                _ => Err(ErrV::WrongArgKind { builtin: tag, got: kind_of(args[0]) }),
            }
        },
        BuiltInFnt::Push => if args.len() != 2 {
            Err(ErrV::WrongArgCount { builtin: tag, expected: 2, got: args.len() as int })
        } else {
            match args[0] {
                ObjV::Array { elems } => Ok(ObjV::Array { elems: elems.push(args[1]) }),
                _ => Err(ErrV::WrongArgKind { builtin: tag, got: kind_of(args[0]) }),
            }
        },
        BuiltInFnt::NotBuiltIn => Ok(ObjV::Null),
    }
}

/// The display name of a builtin tag; `rest` and `NotBuiltIn` have
/// none.
pub open spec fn builtin_name_spec(tag: BuiltInFnt) -> Seq<char> {
    match tag {
        BuiltInFnt::Len => "len"@,
        BuiltInFnt::First => "first"@,
        BuiltInFnt::Last => "last"@,
        BuiltInFnt::Push => "push"@,
        _ => ""@,
    }
}

impl BuiltInFnt {
    /// The display name of this tag, for error reports.
    pub fn name(self) -> (r: &'static str)
        ensures
            r@ == builtin_name_spec(self),
    {
        match self {
            BuiltInFnt::Len => "len",
            BuiltInFnt::First => "first",
            BuiltInFnt::Last => "last",
            BuiltInFnt::Push => "push",
            _ => "",
        }
    }

    /// Looks a name up in the builtin table.
    pub fn from_name(s: &str) -> (r: Self)
        ensures
            r == builtin_of_name_spec(s@),
    {
        if str_eq_chars(s, "len") {
            BuiltInFnt::Len
        } else if str_eq_chars(s, "first") {
            BuiltInFnt::First
        } else if str_eq_chars(s, "last") {
            BuiltInFnt::Last
        } else if str_eq_chars(s, "rest") {
            BuiltInFnt::Rest
        } else if str_eq_chars(s, "push") {
            BuiltInFnt::Push
        } else {
            BuiltInFnt::NotBuiltIn
        }
    }

    /// Runs this builtin on an argument list.
    pub fn call(&self, args: Vec<Object>) -> (r: Result<Object, EvalError>)
        ensures
            res_view(r) == builtin_call_spec(*self, objs_view(args@)),
    {
        proof {
            lemma_objs_view_len(args@);
            if args@.len() > 0 {
                lemma_objs_view_index(args@, 0);
            }
            if args@.len() > 1 {
                lemma_objs_view_index(args@, 1);
            }
        }
        let ghost args0 = objs_view(args@);
        let mut args = args;
        let ghost aseq = args@;
        match self {
            BuiltInFnt::Len => {
                if args.len() != 1 {
                    return Err(EvalError::WrongArgCount {
                        builtin: BuiltInFnt::Len,
                        expected: 1,
                        got: args.len(),
                    });
                }
                match &args[0] {
                    Object::Str(s) => {
                        let n = s.unicode_len();
                        if n as u64 > i64::MAX as u64 {
                            proof {
                                assert(res_view(Err(EvalError::Overflow)) == builtin_call_spec(BuiltInFnt::Len, args0));
                            }
                            Err(EvalError::Overflow)
                        } else {
                            proof {
                                assert(res_view(Ok(Object::Integer { value: n as i64 })) == builtin_call_spec(BuiltInFnt::Len, args0));
                            }
                            Ok(Object::Integer { value: n as i64 })
                        }
                    },
                    Object::Array(v) => {
                        proof {
                            lemma_objs_view_len(v@);
                        }
                        let n = v.len();
                        if n as u64 > i64::MAX as u64 {
                            Err(EvalError::Overflow)
                        } else {
                            Ok(Object::Integer { value: n as i64 })
                        }
                    },
                    _ => Err(EvalError::WrongArgKind {
                        builtin: BuiltInFnt::Len,
                        got: args[0].kind(),
                    }),
                }
            },
            BuiltInFnt::First => {
                if args.len() != 1 {
                    return Err(EvalError::WrongArgCount {
                        builtin: BuiltInFnt::First,
                        expected: 1,
                        got: args.len(),
                    });
                }
                match args.remove(0) {
                    Object::Array(mut v) => {
                        proof {
                            lemma_objs_view_len(v@);
                            if v@.len() > 0 {
                                lemma_objs_view_index(v@, 0);
                            }
                        }
                        if v.len() > 0 {
                            let x = v.remove(0);
                            proof {
                                assert(res_view(Ok(x)) == builtin_call_spec(BuiltInFnt::First, args0));
                            }
                            Ok(x)
                        } else {
                            proof {
                                assert(res_view(Ok(Object::Null)) == builtin_call_spec(BuiltInFnt::First, args0));
                            }
                            Ok(Object::Null)
                        }
                    },
                    other => Err(EvalError::WrongArgKind {
                        builtin: BuiltInFnt::First,
                        got: other.kind(),
                    }),
                }
            },
            BuiltInFnt::Last => {
                if args.len() != 1 {
                    return Err(EvalError::WrongArgCount {
                        builtin: BuiltInFnt::Last,
                        expected: 1,
                        got: args.len(),
                    });
                }
                match args.remove(0) {
                    Object::Array(mut v) => {
                        proof {
                            lemma_objs_view_len(v@);
                            if v@.len() > 0 {
                                lemma_objs_view_index(v@, v@.len() - 1);
                            }
                        }
                        if v.len() > 0 {
                            match v.pop() {
                                Some(x) => {
                                    proof {
                                        assert(res_view(Ok(x)) == builtin_call_spec(BuiltInFnt::Last, args0));
                                    }
                                    Ok(x)
                                },
                                None => Ok(Object::Null),
                            }
                        } else {
                            proof {
                                assert(res_view(Ok(Object::Null)) == builtin_call_spec(BuiltInFnt::Last, args0));
                            }
                            Ok(Object::Null)
                        }
                    },
                    other => Err(EvalError::WrongArgKind {
                        builtin: BuiltInFnt::Last,
                        got: other.kind(),
                    }),
                }
            },
            BuiltInFnt::Rest => {
                if args.len() != 1 {
                    return Err(EvalError::WrongArgCount {
                        builtin: BuiltInFnt::Rest,
                        expected: 1,
                        got: args.len(),
                    });
                }
                match args.remove(0) {
                    Object::Array(mut v) => {
                        proof {
                            lemma_objs_view_len(v@);
                        }
                        if v.len() > 0 {
                            let ghost before = v@;
                            v.remove(0);
                            proof {
                                assert(v@ =~= before.drop_first());
                                lemma_objs_view_len(before);
                                lemma_objs_view_len(v@);
                                assert forall|j: int| 0 <= j < v@.len() implies objs_view(v@)[j]
                                    == objs_view(before).drop_first()[j] by {
                                    lemma_objs_view_index(v@, j);
                                    lemma_objs_view_index(before, j + 1);
                                }
                                assert(objs_view(v@) =~= objs_view(before).drop_first());
                            }
                            proof {
                                assert(res_view(Ok(Object::Array(v))) == builtin_call_spec(BuiltInFnt::Rest, args0));
                            }
                            Ok(Object::Array(v))
                        } else {
                            proof {
                                assert(res_view(Ok(Object::Null)) == builtin_call_spec(BuiltInFnt::Rest, args0));
                            }
                            Ok(Object::Null)
                        }
                    },
                    other => Err(EvalError::WrongArgKind {
                        builtin: BuiltInFnt::Rest,
                        got: other.kind(),
                    }),
                }
            },
            BuiltInFnt::Push => {
                if args.len() != 2 {
                    return Err(EvalError::WrongArgCount {
                        builtin: BuiltInFnt::Push,
                        expected: 2,
                        got: args.len(),
                    });
                }
                let value = match args.pop() {
                    Some(x) => x,
                    None => Object::Null,
                };
                let arr = match args.pop() {
                    Some(x) => x,
                    None => Object::Null,
                };
                proof {
                    assert(aseq.last() == aseq[1]);
                    assert(aseq.drop_last().last() == aseq[0]);
                    assert(value == aseq[1]);
                    assert(arr == aseq[0]);
                    assert(obj_view(value) == args0[1]);
                    assert(obj_view(arr) == args0[0]);
                }
                match arr {
                    Object::Array(mut v) => {
                        proof {
                            lemma_objs_view_len(v@);
                        }
                        let ghost before = v@;
                        v.push(value);
                        proof {
                            assert(v@.drop_last() =~= before);
                            assert(args0[0] == ObjV::Array { elems: objs_view(before) });
                            assert(objs_view(v@) == objs_view(before).push(obj_view(value)));
                            assert(res_view(Ok(Object::Array(v))) == builtin_call_spec(BuiltInFnt::Push, args0));
                        }
                        Ok(Object::Array(v))
                    },
                    other => Err(EvalError::WrongArgKind {
                        builtin: BuiltInFnt::Push,
                        got: other.kind(),
                    }),
                }
            },
            BuiltInFnt::NotBuiltIn => Ok(Object::Null),
        }
    }
}

/// Pushing a value onto an array yields a new array with exactly that
/// value appended; the argument array's contents enter the result
/// unchanged, and the argument itself — a value — is never mutated.
pub proof fn lemma_push_appends(elems: Seq<ObjV>, v: ObjV)
    ensures
        builtin_call_spec(
            BuiltInFnt::Push,
            seq![ObjV::Array { elems }, v],
        ) == Ok::<ObjV, ErrV>(ObjV::Array { elems: elems.push(v) }),
{
    let args = seq![ObjV::Array { elems }, v];
    assert(args.len() == 2);
    assert(args[0] == ObjV::Array { elems });
    assert(args[1] == v);
}

} // verus!
