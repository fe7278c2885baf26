//! The names that plans are written with.
use vstd::prelude::*;

verus! {

/// The names of byte-string expressions differ.
pub proof fn lemma_bytes_names()
    ensures
        "bytes"@ != "storage"@,
        "bytes"@ != "calldata"@,
        "storage"@ != "calldata"@,
        "bytes"@ != "concat"@,
        "storage"@ != "concat"@,
        "calldata"@ != "concat"@,
        "bytes"@ != "slice"@,
        "storage"@ != "slice"@,
        "calldata"@ != "slice"@,
        "concat"@ != "slice"@,
        "bytes"@ != "le"@,
        "storage"@ != "le"@,
        "calldata"@ != "le"@,
        "concat"@ != "le"@,
        "slice"@ != "le"@,
        "bytes"@ != "if"@,
        "storage"@ != "if"@,
        "calldata"@ != "if"@,
        "concat"@ != "if"@,
        "slice"@ != "if"@,
        "le"@ != "if"@,
        "bytes"@ != "loop"@,
        "storage"@ != "loop"@,
        "calldata"@ != "loop"@,
        "concat"@ != "loop"@,
        "slice"@ != "loop"@,
        "le"@ != "loop"@,
        "if"@ != "loop"@,
        "bytes"@ != "hex"@,
        "storage"@ != "hex"@,
        "calldata"@ != "hex"@,
        "concat"@ != "hex"@,
        "slice"@ != "hex"@,
        "le"@ != "hex"@,
        "if"@ != "hex"@,
        "loop"@ != "hex"@,
        "bytes"@ != "decimal"@,
        "storage"@ != "decimal"@,
        "calldata"@ != "decimal"@,
        "concat"@ != "decimal"@,
        "slice"@ != "decimal"@,
        "le"@ != "decimal"@,
        "if"@ != "decimal"@,
        "loop"@ != "decimal"@,
        "hex"@ != "decimal"@,
{
    reveal_strlit("bytes");
    reveal_strlit("storage");
    reveal_strlit("calldata");
    reveal_strlit("concat");
    reveal_strlit("slice");
    reveal_strlit("le");
    reveal_strlit("if");
    reveal_strlit("loop");
    reveal_strlit("hex");
    reveal_strlit("decimal");
    assert("bytes"@.len() != "storage"@.len());
    assert("bytes"@.len() != "calldata"@.len());
    assert("storage"@.len() != "calldata"@.len());
    assert("bytes"@.len() != "concat"@.len());
    assert("storage"@.len() != "concat"@.len());
    assert("calldata"@.len() != "concat"@.len());
    assert("bytes"@[0] != "slice"@[0]);
    assert("storage"@.len() != "slice"@.len());
    assert("calldata"@.len() != "slice"@.len());
    assert("concat"@.len() != "slice"@.len());
    assert("bytes"@.len() != "le"@.len());
    assert("storage"@.len() != "le"@.len());
    assert("calldata"@.len() != "le"@.len());
    assert("concat"@.len() != "le"@.len());
    assert("slice"@.len() != "le"@.len());
    assert("bytes"@.len() != "if"@.len());
    assert("storage"@.len() != "if"@.len());
    assert("calldata"@.len() != "if"@.len());
    assert("concat"@.len() != "if"@.len());
    assert("slice"@.len() != "if"@.len());
    assert("le"@[0] != "if"@[0]);
    assert("bytes"@.len() != "loop"@.len());
    assert("storage"@.len() != "loop"@.len());
    assert("calldata"@.len() != "loop"@.len());
    assert("concat"@.len() != "loop"@.len());
    assert("slice"@.len() != "loop"@.len());
    assert("le"@.len() != "loop"@.len());
    assert("if"@.len() != "loop"@.len());
    assert("bytes"@.len() != "hex"@.len());
    assert("storage"@.len() != "hex"@.len());
    assert("calldata"@.len() != "hex"@.len());
    assert("concat"@.len() != "hex"@.len());
    assert("slice"@.len() != "hex"@.len());
    assert("le"@.len() != "hex"@.len());
    assert("if"@.len() != "hex"@.len());
    assert("loop"@.len() != "hex"@.len());
    assert("bytes"@.len() != "decimal"@.len());
    assert("storage"@[0] != "decimal"@[0]);
    assert("calldata"@.len() != "decimal"@.len());
    assert("concat"@.len() != "decimal"@.len());
    assert("slice"@.len() != "decimal"@.len());
    assert("le"@.len() != "decimal"@.len());
    assert("if"@.len() != "decimal"@.len());
    assert("loop"@.len() != "decimal"@.len());
    assert("hex"@.len() != "decimal"@.len());
}

/// The names of number expressions differ.
pub proof fn lemma_num_names()
    ensures
        "num"@ != "word"@,
        "num"@ != "u"@,
        "word"@ != "u"@,
        "num"@ != "len"@,
        "word"@ != "len"@,
        "u"@ != "len"@,
        "num"@ != "height"@,
        "word"@ != "height"@,
        "u"@ != "height"@,
        "len"@ != "height"@,
        "num"@ != "var"@,
        "word"@ != "var"@,
        "u"@ != "var"@,
        "len"@ != "var"@,
        "height"@ != "var"@,
        "num"@ != "add"@,
        "word"@ != "add"@,
        "u"@ != "add"@,
        "len"@ != "add"@,
        "height"@ != "add"@,
        "var"@ != "add"@,
        "num"@ != "sub"@,
        "word"@ != "sub"@,
        "u"@ != "sub"@,
        "len"@ != "sub"@,
        "height"@ != "sub"@,
        "var"@ != "sub"@,
        "add"@ != "sub"@,
        "num"@ != "mul"@,
        "word"@ != "mul"@,
        "u"@ != "mul"@,
        "len"@ != "mul"@,
        "height"@ != "mul"@,
        "var"@ != "mul"@,
        "add"@ != "mul"@,
        "sub"@ != "mul"@,
        "num"@ != "div"@,
        "word"@ != "div"@,
        "u"@ != "div"@,
        "len"@ != "div"@,
        "height"@ != "div"@,
        "var"@ != "div"@,
        "add"@ != "div"@,
        "sub"@ != "div"@,
        "mul"@ != "div"@,
        "num"@ != "mod"@,
        "word"@ != "mod"@,
        "u"@ != "mod"@,
        "len"@ != "mod"@,
        "height"@ != "mod"@,
        "var"@ != "mod"@,
        "add"@ != "mod"@,
        "sub"@ != "mod"@,
        "mul"@ != "mod"@,
        "div"@ != "mod"@,
        "num"@ != "shr"@,
        "word"@ != "shr"@,
        "u"@ != "shr"@,
        "len"@ != "shr"@,
        "height"@ != "shr"@,
        "var"@ != "shr"@,
        "add"@ != "shr"@,
        "sub"@ != "shr"@,
        "mul"@ != "shr"@,
        "div"@ != "shr"@,
        "mod"@ != "shr"@,
        "num"@ != "shl"@,
        "word"@ != "shl"@,
        "u"@ != "shl"@,
        "len"@ != "shl"@,
        "height"@ != "shl"@,
        "var"@ != "shl"@,
        "add"@ != "shl"@,
        "sub"@ != "shl"@,
        "mul"@ != "shl"@,
        "div"@ != "shl"@,
        "mod"@ != "shl"@,
        "shr"@ != "shl"@,
        "num"@ != "and"@,
        "word"@ != "and"@,
        "u"@ != "and"@,
        "len"@ != "and"@,
        "height"@ != "and"@,
        "var"@ != "and"@,
        "add"@ != "and"@,
        "sub"@ != "and"@,
        "mul"@ != "and"@,
        "div"@ != "and"@,
        "mod"@ != "and"@,
        "shr"@ != "and"@,
        "shl"@ != "and"@,
        "num"@ != "or"@,
        "word"@ != "or"@,
        "u"@ != "or"@,
        "len"@ != "or"@,
        "height"@ != "or"@,
        "var"@ != "or"@,
        "add"@ != "or"@,
        "sub"@ != "or"@,
        "mul"@ != "or"@,
        "div"@ != "or"@,
        "mod"@ != "or"@,
        "shr"@ != "or"@,
        "shl"@ != "or"@,
        "and"@ != "or"@,
        "num"@ != "xor"@,
        "word"@ != "xor"@,
        "u"@ != "xor"@,
        "len"@ != "xor"@,
        "height"@ != "xor"@,
        "var"@ != "xor"@,
        "add"@ != "xor"@,
        "sub"@ != "xor"@,
        "mul"@ != "xor"@,
        "div"@ != "xor"@,
        "mod"@ != "xor"@,
        "shr"@ != "xor"@,
        "shl"@ != "xor"@,
        "and"@ != "xor"@,
        "or"@ != "xor"@,
        "num"@ != "nif"@,
        "word"@ != "nif"@,
        "u"@ != "nif"@,
        "len"@ != "nif"@,
        "height"@ != "nif"@,
        "var"@ != "nif"@,
        "add"@ != "nif"@,
        "sub"@ != "nif"@,
        "mul"@ != "nif"@,
        "div"@ != "nif"@,
        "mod"@ != "nif"@,
        "shr"@ != "nif"@,
        "shl"@ != "nif"@,
        "and"@ != "nif"@,
        "or"@ != "nif"@,
        "xor"@ != "nif"@,
{
    reveal_strlit("num");
    reveal_strlit("word");
    reveal_strlit("u");
    reveal_strlit("len");
    reveal_strlit("height");
    reveal_strlit("var");
    reveal_strlit("add");
    reveal_strlit("sub");
    reveal_strlit("mul");
    reveal_strlit("div");
    reveal_strlit("mod");
    reveal_strlit("shr");
    reveal_strlit("shl");
    reveal_strlit("and");
    reveal_strlit("or");
    reveal_strlit("xor");
    reveal_strlit("nif");
    assert("num"@.len() != "word"@.len());
    assert("num"@.len() != "u"@.len());
    assert("word"@.len() != "u"@.len());
    assert("num"@[0] != "len"@[0]);
    assert("word"@.len() != "len"@.len());
    assert("u"@.len() != "len"@.len());
    assert("num"@.len() != "height"@.len());
    assert("word"@.len() != "height"@.len());
    assert("u"@.len() != "height"@.len());
    assert("len"@.len() != "height"@.len());
    assert("num"@[0] != "var"@[0]);
    assert("word"@.len() != "var"@.len());
    assert("u"@.len() != "var"@.len());
    assert("len"@[0] != "var"@[0]);
    assert("height"@.len() != "var"@.len());
    assert("num"@[0] != "add"@[0]);
    assert("word"@.len() != "add"@.len());
    assert("u"@.len() != "add"@.len());
    assert("len"@[0] != "add"@[0]);
    assert("height"@.len() != "add"@.len());
    assert("var"@[0] != "add"@[0]);
    assert("num"@[0] != "sub"@[0]);
    assert("word"@.len() != "sub"@.len());
    assert("u"@.len() != "sub"@.len());
    assert("len"@[0] != "sub"@[0]);
    assert("height"@.len() != "sub"@.len());
    assert("var"@[0] != "sub"@[0]);
    assert("add"@[0] != "sub"@[0]);
    assert("num"@[0] != "mul"@[0]);
    assert("word"@.len() != "mul"@.len());
    assert("u"@.len() != "mul"@.len());
    assert("len"@[0] != "mul"@[0]);
    assert("height"@.len() != "mul"@.len());
    assert("var"@[0] != "mul"@[0]);
    assert("add"@[0] != "mul"@[0]);
    assert("sub"@[0] != "mul"@[0]);
    assert("num"@[0] != "div"@[0]);
    assert("word"@.len() != "div"@.len());
    assert("u"@.len() != "div"@.len());
    assert("len"@[0] != "div"@[0]);
    assert("height"@.len() != "div"@.len());
    assert("var"@[0] != "div"@[0]);
    assert("add"@[0] != "div"@[0]);
    assert("sub"@[0] != "div"@[0]);
    assert("mul"@[0] != "div"@[0]);
    assert("num"@[0] != "mod"@[0]);
    assert("word"@.len() != "mod"@.len());
    assert("u"@.len() != "mod"@.len());
    assert("len"@[0] != "mod"@[0]);
    assert("height"@.len() != "mod"@.len());
    assert("var"@[0] != "mod"@[0]);
    assert("add"@[0] != "mod"@[0]);
    assert("sub"@[0] != "mod"@[0]);
    assert("mul"@[1] != "mod"@[1]);
    assert("div"@[0] != "mod"@[0]);
    assert("num"@[0] != "shr"@[0]);
    assert("word"@.len() != "shr"@.len());
    assert("u"@.len() != "shr"@.len());
    assert("len"@[0] != "shr"@[0]);
    assert("height"@.len() != "shr"@.len());
    assert("var"@[0] != "shr"@[0]);
    assert("add"@[0] != "shr"@[0]);
    assert("sub"@[1] != "shr"@[1]);
    assert("mul"@[0] != "shr"@[0]);
    assert("div"@[0] != "shr"@[0]);
    assert("mod"@[0] != "shr"@[0]);
    assert("num"@[0] != "shl"@[0]);
    assert("word"@.len() != "shl"@.len());
    assert("u"@.len() != "shl"@.len());
    assert("len"@[0] != "shl"@[0]);
    assert("height"@.len() != "shl"@.len());
    assert("var"@[0] != "shl"@[0]);
    assert("add"@[0] != "shl"@[0]);
    assert("sub"@[1] != "shl"@[1]);
    assert("mul"@[0] != "shl"@[0]);
    assert("div"@[0] != "shl"@[0]);
    assert("mod"@[0] != "shl"@[0]);
    assert("shr"@[2] != "shl"@[2]);
    assert("num"@[0] != "and"@[0]);
    assert("word"@.len() != "and"@.len());
    assert("u"@.len() != "and"@.len());
    assert("len"@[0] != "and"@[0]);
    assert("height"@.len() != "and"@.len());
    assert("var"@[0] != "and"@[0]);
    assert("add"@[1] != "and"@[1]);
    assert("sub"@[0] != "and"@[0]);
    assert("mul"@[0] != "and"@[0]);
    assert("div"@[0] != "and"@[0]);
    assert("mod"@[0] != "and"@[0]);
    assert("shr"@[0] != "and"@[0]);
    assert("shl"@[0] != "and"@[0]);
    assert("num"@.len() != "or"@.len());
    assert("word"@.len() != "or"@.len());
    assert("u"@.len() != "or"@.len());
    assert("len"@.len() != "or"@.len());
    assert("height"@.len() != "or"@.len());
    assert("var"@.len() != "or"@.len());
    assert("add"@.len() != "or"@.len());
    assert("sub"@.len() != "or"@.len());
    assert("mul"@.len() != "or"@.len());
    assert("div"@.len() != "or"@.len());
    assert("mod"@.len() != "or"@.len());
    assert("shr"@.len() != "or"@.len());
    assert("shl"@.len() != "or"@.len());
    assert("and"@.len() != "or"@.len());
    assert("num"@[0] != "xor"@[0]);
    assert("word"@.len() != "xor"@.len());
    assert("u"@.len() != "xor"@.len());
    assert("len"@[0] != "xor"@[0]);
    assert("height"@.len() != "xor"@.len());
    assert("var"@[0] != "xor"@[0]);
    assert("add"@[0] != "xor"@[0]);
    assert("sub"@[0] != "xor"@[0]);
    assert("mul"@[0] != "xor"@[0]);
    assert("div"@[0] != "xor"@[0]);
    assert("mod"@[0] != "xor"@[0]);
    assert("shr"@[0] != "xor"@[0]);
    assert("shl"@[0] != "xor"@[0]);
    assert("and"@[0] != "xor"@[0]);
    assert("or"@.len() != "xor"@.len());
    assert("num"@[1] != "nif"@[1]);
    assert("word"@.len() != "nif"@.len());
    assert("u"@.len() != "nif"@.len());
    assert("len"@[0] != "nif"@[0]);
    assert("height"@.len() != "nif"@.len());
    assert("var"@[0] != "nif"@[0]);
    assert("add"@[0] != "nif"@[0]);
    assert("sub"@[0] != "nif"@[0]);
    assert("mul"@[0] != "nif"@[0]);
    assert("div"@[0] != "nif"@[0]);
    assert("mod"@[0] != "nif"@[0]);
    assert("shr"@[0] != "nif"@[0]);
    assert("shl"@[0] != "nif"@[0]);
    assert("and"@[0] != "nif"@[0]);
    assert("or"@.len() != "nif"@.len());
    assert("xor"@[0] != "nif"@[0]);
}

/// The names of truth-valued expressions differ.
pub proof fn lemma_bool_names()
    ensures
        "eq"@ != "ne"@,
        "eq"@ != "lt"@,
        "ne"@ != "lt"@,
        "eq"@ != "lte"@,
        "ne"@ != "lte"@,
        "lt"@ != "lte"@,
        "eq"@ != "gt"@,
        "ne"@ != "gt"@,
        "lt"@ != "gt"@,
        "lte"@ != "gt"@,
        "eq"@ != "gte"@,
        "ne"@ != "gte"@,
        "lt"@ != "gte"@,
        "lte"@ != "gte"@,
        "gt"@ != "gte"@,
        "eq"@ != "beq"@,
        "ne"@ != "beq"@,
        "lt"@ != "beq"@,
        "lte"@ != "beq"@,
        "gt"@ != "beq"@,
        "gte"@ != "beq"@,
        "eq"@ != "and"@,
        "ne"@ != "and"@,
        "lt"@ != "and"@,
        "lte"@ != "and"@,
        "gt"@ != "and"@,
        "gte"@ != "and"@,
        "beq"@ != "and"@,
        "eq"@ != "or"@,
        "ne"@ != "or"@,
        "lt"@ != "or"@,
        "lte"@ != "or"@,
        "gt"@ != "or"@,
        "gte"@ != "or"@,
        "beq"@ != "or"@,
        "and"@ != "or"@,
        "eq"@ != "not"@,
        "ne"@ != "not"@,
        "lt"@ != "not"@,
        "lte"@ != "not"@,
        "gt"@ != "not"@,
        "gte"@ != "not"@,
        "beq"@ != "not"@,
        "and"@ != "not"@,
        "or"@ != "not"@,
{
    reveal_strlit("eq");
    reveal_strlit("ne");
    reveal_strlit("lt");
    reveal_strlit("lte");
    reveal_strlit("gt");
    reveal_strlit("gte");
    reveal_strlit("beq");
    reveal_strlit("and");
    reveal_strlit("or");
    reveal_strlit("not");
    assert("eq"@[0] != "ne"@[0]);
    assert("eq"@[0] != "lt"@[0]);
    assert("ne"@[0] != "lt"@[0]);
    assert("eq"@.len() != "lte"@.len());
    assert("ne"@.len() != "lte"@.len());
    assert("lt"@.len() != "lte"@.len());
    assert("eq"@[0] != "gt"@[0]);
    assert("ne"@[0] != "gt"@[0]);
    assert("lt"@[0] != "gt"@[0]);
    assert("lte"@.len() != "gt"@.len());
    assert("eq"@.len() != "gte"@.len());
    assert("ne"@.len() != "gte"@.len());
    assert("lt"@.len() != "gte"@.len());
    assert("lte"@[0] != "gte"@[0]);
    assert("gt"@.len() != "gte"@.len());
    assert("eq"@.len() != "beq"@.len());
    assert("ne"@.len() != "beq"@.len());
    assert("lt"@.len() != "beq"@.len());
    assert("lte"@[0] != "beq"@[0]);
    assert("gt"@.len() != "beq"@.len());
    assert("gte"@[0] != "beq"@[0]);
    assert("eq"@.len() != "and"@.len());
    assert("ne"@.len() != "and"@.len());
    assert("lt"@.len() != "and"@.len());
    assert("lte"@[0] != "and"@[0]);
    assert("gt"@.len() != "and"@.len());
    assert("gte"@[0] != "and"@[0]);
    assert("beq"@[0] != "and"@[0]);
    assert("eq"@[0] != "or"@[0]);
    assert("ne"@[0] != "or"@[0]);
    assert("lt"@[0] != "or"@[0]);
    assert("lte"@.len() != "or"@.len());
    assert("gt"@[0] != "or"@[0]);
    assert("gte"@.len() != "or"@.len());
    assert("beq"@.len() != "or"@.len());
    assert("and"@.len() != "or"@.len());
    assert("eq"@.len() != "not"@.len());
    assert("ne"@.len() != "not"@.len());
    assert("lt"@.len() != "not"@.len());
    assert("lte"@[0] != "not"@[0]);
    assert("gt"@.len() != "not"@.len());
    assert("gte"@[0] != "not"@[0]);
    assert("beq"@[0] != "not"@[0]);
    assert("and"@[0] != "not"@[0]);
    assert("or"@.len() != "not"@.len());
}

/// The names of the parts of expressions differ.
pub proof fn lemma_part_names()
    ensures
        "of"@ != "start"@,
        "of"@ != "len"@,
        "start"@ != "len"@,
        "of"@ != "width"@,
        "start"@ != "width"@,
        "len"@ != "width"@,
        "of"@ != "cond"@,
        "start"@ != "cond"@,
        "len"@ != "cond"@,
        "width"@ != "cond"@,
        "of"@ != "then"@,
        "start"@ != "then"@,
        "len"@ != "then"@,
        "width"@ != "then"@,
        "cond"@ != "then"@,
        "of"@ != "else"@,
        "start"@ != "else"@,
        "len"@ != "else"@,
        "width"@ != "else"@,
        "cond"@ != "else"@,
        "then"@ != "else"@,
        "of"@ != "count"@,
        "start"@ != "count"@,
        "len"@ != "count"@,
        "width"@ != "count"@,
        "cond"@ != "count"@,
        "then"@ != "count"@,
        "else"@ != "count"@,
        "of"@ != "body"@,
        "start"@ != "body"@,
        "len"@ != "body"@,
        "width"@ != "body"@,
        "cond"@ != "body"@,
        "then"@ != "body"@,
        "else"@ != "body"@,
        "count"@ != "body"@,
{
    reveal_strlit("of");
    reveal_strlit("start");
    reveal_strlit("len");
    reveal_strlit("width");
    reveal_strlit("cond");
    reveal_strlit("then");
    reveal_strlit("else");
    reveal_strlit("count");
    reveal_strlit("body");
    assert("of"@.len() != "start"@.len());
    assert("of"@.len() != "len"@.len());
    assert("start"@.len() != "len"@.len());
    assert("of"@.len() != "width"@.len());
    assert("start"@[0] != "width"@[0]);
    assert("len"@.len() != "width"@.len());
    assert("of"@.len() != "cond"@.len());
    assert("start"@.len() != "cond"@.len());
    assert("len"@.len() != "cond"@.len());
    assert("width"@.len() != "cond"@.len());
    assert("of"@.len() != "then"@.len());
    assert("start"@.len() != "then"@.len());
    assert("len"@.len() != "then"@.len());
    assert("width"@.len() != "then"@.len());
    assert("cond"@[0] != "then"@[0]);
    assert("of"@.len() != "else"@.len());
    assert("start"@.len() != "else"@.len());
    assert("len"@.len() != "else"@.len());
    assert("width"@.len() != "else"@.len());
    assert("cond"@[0] != "else"@[0]);
    assert("then"@[0] != "else"@[0]);
    assert("of"@.len() != "count"@.len());
    assert("start"@[0] != "count"@[0]);
    assert("len"@.len() != "count"@.len());
    assert("width"@[0] != "count"@[0]);
    assert("cond"@.len() != "count"@.len());
    assert("then"@.len() != "count"@.len());
    assert("else"@.len() != "count"@.len());
    assert("of"@.len() != "body"@.len());
    assert("start"@.len() != "body"@.len());
    assert("len"@.len() != "body"@.len());
    assert("width"@.len() != "body"@.len());
    assert("cond"@[0] != "body"@[0]);
    assert("then"@[0] != "body"@[0]);
    assert("else"@[0] != "body"@[0]);
    assert("count"@.len() != "body"@.len());
}

/// The names of the fields of a plan differ.
pub proof fn lemma_plan_names()
    ensures
        "v"@ != "expr"@,
        "v"@ != "trials"@,
        "expr"@ != "trials"@,
{
    reveal_strlit("v");
    reveal_strlit("expr");
    reveal_strlit("trials");
    assert("v"@.len() != "expr"@.len());
    assert("v"@.len() != "trials"@.len());
    assert("expr"@.len() != "trials"@.len());
}

/// No name is the one that serde_json keeps for numbers of its own.
pub proof fn lemma_names_free()
    ensures
        "bytes"@ != "$serde_json::private::Number"@,
        "storage"@ != "$serde_json::private::Number"@,
        "calldata"@ != "$serde_json::private::Number"@,
        "concat"@ != "$serde_json::private::Number"@,
        "slice"@ != "$serde_json::private::Number"@,
        "le"@ != "$serde_json::private::Number"@,
        "if"@ != "$serde_json::private::Number"@,
        "loop"@ != "$serde_json::private::Number"@,
        "hex"@ != "$serde_json::private::Number"@,
        "decimal"@ != "$serde_json::private::Number"@,
        "num"@ != "$serde_json::private::Number"@,
        "word"@ != "$serde_json::private::Number"@,
        "u"@ != "$serde_json::private::Number"@,
        "len"@ != "$serde_json::private::Number"@,
        "height"@ != "$serde_json::private::Number"@,
        "var"@ != "$serde_json::private::Number"@,
        "add"@ != "$serde_json::private::Number"@,
        "sub"@ != "$serde_json::private::Number"@,
        "mul"@ != "$serde_json::private::Number"@,
        "div"@ != "$serde_json::private::Number"@,
        "mod"@ != "$serde_json::private::Number"@,
        "shr"@ != "$serde_json::private::Number"@,
        "shl"@ != "$serde_json::private::Number"@,
        "and"@ != "$serde_json::private::Number"@,
        "or"@ != "$serde_json::private::Number"@,
        "xor"@ != "$serde_json::private::Number"@,
        "nif"@ != "$serde_json::private::Number"@,
        "eq"@ != "$serde_json::private::Number"@,
        "ne"@ != "$serde_json::private::Number"@,
        "lt"@ != "$serde_json::private::Number"@,
        "lte"@ != "$serde_json::private::Number"@,
        "gt"@ != "$serde_json::private::Number"@,
        "gte"@ != "$serde_json::private::Number"@,
        "beq"@ != "$serde_json::private::Number"@,
        "not"@ != "$serde_json::private::Number"@,
        "of"@ != "$serde_json::private::Number"@,
        "start"@ != "$serde_json::private::Number"@,
        "width"@ != "$serde_json::private::Number"@,
        "cond"@ != "$serde_json::private::Number"@,
        "then"@ != "$serde_json::private::Number"@,
        "else"@ != "$serde_json::private::Number"@,
        "count"@ != "$serde_json::private::Number"@,
        "body"@ != "$serde_json::private::Number"@,
        "v"@ != "$serde_json::private::Number"@,
        "expr"@ != "$serde_json::private::Number"@,
        "trials"@ != "$serde_json::private::Number"@,
{
    reveal_strlit("$serde_json::private::Number");
    reveal_strlit("bytes");
    reveal_strlit("storage");
    reveal_strlit("calldata");
    reveal_strlit("concat");
    reveal_strlit("slice");
    reveal_strlit("le");
    reveal_strlit("if");
    reveal_strlit("loop");
    reveal_strlit("hex");
    reveal_strlit("decimal");
    reveal_strlit("num");
    reveal_strlit("word");
    reveal_strlit("u");
    reveal_strlit("len");
    reveal_strlit("height");
    reveal_strlit("var");
    reveal_strlit("add");
    reveal_strlit("sub");
    reveal_strlit("mul");
    reveal_strlit("div");
    reveal_strlit("mod");
    reveal_strlit("shr");
    reveal_strlit("shl");
    reveal_strlit("and");
    reveal_strlit("or");
    reveal_strlit("xor");
    reveal_strlit("nif");
    reveal_strlit("eq");
    reveal_strlit("ne");
    reveal_strlit("lt");
    reveal_strlit("lte");
    reveal_strlit("gt");
    reveal_strlit("gte");
    reveal_strlit("beq");
    reveal_strlit("not");
    reveal_strlit("of");
    reveal_strlit("start");
    reveal_strlit("width");
    reveal_strlit("cond");
    reveal_strlit("then");
    reveal_strlit("else");
    reveal_strlit("count");
    reveal_strlit("body");
    reveal_strlit("v");
    reveal_strlit("expr");
    reveal_strlit("trials");
    assert("bytes"@.len() != "$serde_json::private::Number"@.len());
    assert("storage"@.len() != "$serde_json::private::Number"@.len());
    assert("calldata"@.len() != "$serde_json::private::Number"@.len());
    assert("concat"@.len() != "$serde_json::private::Number"@.len());
    assert("slice"@.len() != "$serde_json::private::Number"@.len());
    assert("le"@.len() != "$serde_json::private::Number"@.len());
    assert("if"@.len() != "$serde_json::private::Number"@.len());
    assert("loop"@.len() != "$serde_json::private::Number"@.len());
    assert("hex"@.len() != "$serde_json::private::Number"@.len());
    assert("decimal"@.len() != "$serde_json::private::Number"@.len());
    assert("num"@.len() != "$serde_json::private::Number"@.len());
    assert("word"@.len() != "$serde_json::private::Number"@.len());
    assert("u"@.len() != "$serde_json::private::Number"@.len());
    assert("len"@.len() != "$serde_json::private::Number"@.len());
    assert("height"@.len() != "$serde_json::private::Number"@.len());
    assert("var"@.len() != "$serde_json::private::Number"@.len());
    assert("add"@.len() != "$serde_json::private::Number"@.len());
    assert("sub"@.len() != "$serde_json::private::Number"@.len());
    assert("mul"@.len() != "$serde_json::private::Number"@.len());
    assert("div"@.len() != "$serde_json::private::Number"@.len());
    assert("mod"@.len() != "$serde_json::private::Number"@.len());
    assert("shr"@.len() != "$serde_json::private::Number"@.len());
    assert("shl"@.len() != "$serde_json::private::Number"@.len());
    assert("and"@.len() != "$serde_json::private::Number"@.len());
    assert("or"@.len() != "$serde_json::private::Number"@.len());
    assert("xor"@.len() != "$serde_json::private::Number"@.len());
    assert("nif"@.len() != "$serde_json::private::Number"@.len());
    assert("eq"@.len() != "$serde_json::private::Number"@.len());
    assert("ne"@.len() != "$serde_json::private::Number"@.len());
    assert("lt"@.len() != "$serde_json::private::Number"@.len());
    assert("lte"@.len() != "$serde_json::private::Number"@.len());
    assert("gt"@.len() != "$serde_json::private::Number"@.len());
    assert("gte"@.len() != "$serde_json::private::Number"@.len());
    assert("beq"@.len() != "$serde_json::private::Number"@.len());
    assert("not"@.len() != "$serde_json::private::Number"@.len());
    assert("of"@.len() != "$serde_json::private::Number"@.len());
    assert("start"@.len() != "$serde_json::private::Number"@.len());
    assert("width"@.len() != "$serde_json::private::Number"@.len());
    assert("cond"@.len() != "$serde_json::private::Number"@.len());
    assert("then"@.len() != "$serde_json::private::Number"@.len());
    assert("else"@.len() != "$serde_json::private::Number"@.len());
    assert("count"@.len() != "$serde_json::private::Number"@.len());
    assert("body"@.len() != "$serde_json::private::Number"@.len());
    assert("v"@.len() != "$serde_json::private::Number"@.len());
    assert("expr"@.len() != "$serde_json::private::Number"@.len());
    assert("trials"@.len() != "$serde_json::private::Number"@.len());
}

} // verus!
