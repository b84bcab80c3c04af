//! Writing JSON text: the indented layout as spec functions, and the writer.
use vstd::prelude::*;
use crate::json::{Json, JsonModel, lemma_field_models, lemma_models};
use crate::number::{milli_text, push_milli};
use crate::text::{chars_of, push_char, push_str};

verus! {

pub open spec fn hex_lower(d: nat) -> char {
    if d < 10 {
        ((d + '0' as nat) as u32) as char
    } else {
        ((d - 10 + 'a' as nat) as u32) as char
    }
}

/// How one character appears inside a JSON string.
pub open spec fn escape_char(c: char) -> Seq<char> {
    if c == '"' {
        seq!['\\', '"']
    } else if c == '\\' {
        seq!['\\', '\\']
    } else if c == '\n' {
        seq!['\\', 'n']
    } else if c == '\r' {
        seq!['\\', 'r']
    } else if c == '\t' {
        seq!['\\', 't']
    } else if (c as u32) < 0x20 {
        seq!['\\', 'u', '0', '0', hex_lower((c as nat) / 16), hex_lower((c as nat) % 16)]
    } else {
        seq![c]
    }
}

/// A text with every character escaped for a JSON string.
pub open spec fn escape_text(t: Seq<char>) -> Seq<char>
    decreases t.len(),
{
    if t.len() == 0 {
        Seq::empty()
    } else {
        escape_text(t.drop_last()) + escape_char(t.last())
    }
}

pub open spec fn spaces(n: nat) -> Seq<char>
    decreases n,
{
    if n == 0 {
        Seq::empty()
    } else {
        spaces((n - 1) as nat).push(' ')
    }
}

/// Line break and indentation before an item at `level`.
pub open spec fn pad(level: nat, pretty: bool) -> Seq<char> {
    if pretty {
        seq!['\n'] + spaces(2 * level)
    } else {
        Seq::empty()
    }
}

/// The text of a value whose own line is indented at `depth`.
pub open spec fn write_model(v: JsonModel, depth: nat, pretty: bool) -> Seq<char>
    decreases v, 0int,
{
    match v {
        JsonModel::Null => seq!['n', 'u', 'l', 'l'],
        JsonModel::Bool(b) => if b {
            seq!['t', 'r', 'u', 'e']
        } else {
            seq!['f', 'a', 'l', 's', 'e']
        },
        JsonModel::Num(m) => milli_text(m),
        JsonModel::Str(t) => seq!['"'] + escape_text(t) + seq!['"'],
        JsonModel::Arr(items) => if items.len() == 0 {
            seq!['[', ']']
        } else {
            seq!['['] + write_items(items, depth, pretty) + pad(depth, pretty) + seq![']']
        },
        JsonModel::Obj(fields) => if fields.len() == 0 {
            seq!['{', '}']
        } else {
            seq!['{'] + write_fields(fields, depth, pretty) + pad(depth, pretty) + seq!['}']
        },
    }
}

/// The items of an array, each after a comma (but the first) and its pad.
pub open spec fn write_items(s: Seq<JsonModel>, depth: nat, pretty: bool) -> Seq<char>
    decreases s, 1int,
{
    if s.len() == 0 {
        Seq::empty()
    } else {
        write_items(s.drop_last(), depth, pretty) + (if s.len() > 1 {
            seq![',']
        } else {
            Seq::empty()
        }) + pad(depth + 1, pretty) + write_model(s.last(), depth + 1, pretty)
    }
}

/// The members of an object, each as `"key": value`.
pub open spec fn write_fields(s: Seq<(Seq<char>, JsonModel)>, depth: nat, pretty: bool) -> Seq<
    char,
>
    decreases s, 1int,
{
    if s.len() == 0 {
        Seq::empty()
    } else {
        write_fields(s.drop_last(), depth, pretty) + (if s.len() > 1 {
            seq![',']
        } else {
            Seq::empty()
        }) + pad(depth + 1, pretty) + key_text(s.last().0, pretty) + write_model(
            s.last().1,
            depth + 1,
            pretty,
        )
    }
}

fn hex_digit_lower(d: u32) -> (c: char)
    requires
        d < 16,
    ensures
        c == hex_lower(d as nat),
{
    let c = match d {
        0 => '0',
        1 => '1',
        2 => '2',
        3 => '3',
        4 => '4',
        5 => '5',
        6 => '6',
        7 => '7',
        8 => '8',
        9 => '9',
        10 => 'a',
        11 => 'b',
        12 => 'c',
        13 => 'd',
        14 => 'e',
        _ => 'f',
    };
    c
}

fn push_escaped_char(out: &mut String, c: char)
    ensures
        final(out)@ == old(out)@ + escape_char(c),
{
    let ghost before = out@;
    if c == '"' {
        push_char(out, '\\');
        push_char(out, '"');
    } else if c == '\\' {
        push_char(out, '\\');
        push_char(out, '\\');
    } else if c == '\n' {
        push_char(out, '\\');
        push_char(out, 'n');
    } else if c == '\r' {
        push_char(out, '\\');
        push_char(out, 'r');
    } else if c == '\t' {
        push_char(out, '\\');
        push_char(out, 't');
    } else if (c as u32) < 0x20 {
        push_char(out, '\\');
        push_char(out, 'u');
        push_char(out, '0');
        push_char(out, '0');
        push_char(out, hex_digit_lower((c as u32) / 16));
        push_char(out, hex_digit_lower((c as u32) % 16));
    } else {
        push_char(out, c);
    }
    assert(out@ =~= before + escape_char(c));
}

/// Appends the escaped form of `t` to `out`.
pub fn push_escaped(out: &mut String, t: &str)
    ensures
        final(out)@ == old(out)@ + escape_text(t@),
{
    let chars = chars_of(t);
    let ghost before = out@;
    let mut i: usize = 0;
    while i < chars.len()
        invariant
            i <= chars.len(),
            chars@ == t@,
            out@ == before + escape_text(chars@.take(i as int)),
        decreases chars.len() - i,
    {
        push_escaped_char(out, chars[i]);
        assert(chars@.take(i + 1).drop_last() =~= chars@.take(i as int));
        i += 1;
    }
    assert(chars@.take(chars.len() as int) =~= chars@);
}

/// The text with quotes, backslashes and control characters escaped for a
/// JSON string.
pub fn escape(text: &str) -> (r: String)
    ensures
        r@ == escape_text(text@),
{
    let mut out = String::new();
    push_escaped(&mut out, text);
    out
}

/// In indented output, a line break and the indentation of `level`, which
/// `indent` holds.
fn push_pad(out: &mut String, indent: &String, Ghost(level): Ghost<nat>, pretty: bool)
    requires
        pretty ==> indent@ == spaces(2 * level),
    ensures
        final(out)@ == old(out)@ + pad(level, pretty),
{
    if pretty {
        push_char(out, '\n');
        push_str(out, indent.as_str());
    }
}

/// The indentation one level deeper than `indent`, where it is needed.
fn deeper(indent: &String, Ghost(level): Ghost<nat>, pretty: bool) -> (r: String)
    requires
        pretty ==> indent@ == spaces(2 * level),
    ensures
        pretty ==> r@ == spaces(2 * (level + 1)),
{
    if pretty {
        let mut r = indent.clone();
        push_char(&mut r, ' ');
        push_char(&mut r, ' ');
        assert(spaces(2 * (level + 1)) == spaces((2 * level + 1) as nat).push(' '));
        assert(spaces((2 * level + 1) as nat) == spaces(2 * level).push(' '));
        r
    } else {
        String::new()
    }
}

/// A member's key as it is written, with its colon.
pub open spec fn key_text(key: Seq<char>, pretty: bool) -> Seq<char> {
    seq!['"'] + escape_text(key) + seq!['"', ':'] + (if pretty {
        seq![' ']
    } else {
        Seq::empty()
    })
}

fn push_key(out: &mut String, key: &str, pretty: bool)
    ensures
        final(out)@ == old(out)@ + key_text(key@, pretty),
{
    let ghost before = out@;
    push_char(out, '"');
    push_escaped(out, key);
    push_char(out, '"');
    push_char(out, ':');
    if pretty {
        push_char(out, ' ');
    }
    assert(out@ =~= before + key_text(key@, pretty));
}


impl Json {
    fn write(&self, out: &mut String, indent: &String, Ghost(depth): Ghost<nat>, pretty: bool)
        requires
            pretty ==> indent@ == spaces(2 * depth),
        ensures
            final(out)@ == old(out)@ + write_model(self.model(), depth, pretty),
        decreases self, 1int,
    {
        let ghost before = out@;
        match self {
            Json::Null => {
                proof {
                    reveal_strlit("null");
                }
                push_str(out, "null");
            },
            Json::Bool(b) => {
                if *b {
                    proof {
                        reveal_strlit("true");
                    }
                    push_str(out, "true");
                } else {
                    proof {
                        reveal_strlit("false");
                    }
                    push_str(out, "false");
                }
            },
            Json::Num(m) => {
                push_milli(out, *m);
            },
            Json::Str(t) => {
                push_char(out, '"');
                push_escaped(out, t.as_str());
                push_char(out, '"');
            },
            Json::Arr(items) => {
                proof {
                    assert(decreases_to!(*self => *items));
                }
                Json::write_arr(items, out, indent, Ghost(depth), pretty);
            },
            Json::Obj(fields) => {
                proof {
                    assert(decreases_to!(*self => *fields));
                }
                Json::write_obj(fields, out, indent, Ghost(depth), pretty);
            },
        }
    }

    #[verifier::loop_isolation(false)]
    #[verifier::spinoff_prover]
    #[verifier::rlimit(40)]
    fn write_arr(items: &Vec<Json>, out: &mut String, indent: &String, Ghost(depth): Ghost<nat>, pretty: bool)
        requires
            pretty ==> indent@ == spaces(2 * depth),
        ensures
            final(out)@ == old(out)@ + write_model(
                JsonModel::Arr(Json::models(items@)),
                depth,
                pretty,
            ),
        decreases items, 0int,
    {
        let ghost before = out@;
        let ghost ms = Json::models(items@);
        proof {
            lemma_models(items@);
        }
        if items.len() == 0 {
            push_char(out, '[');
            push_char(out, ']');
            assert(out@ =~= before + seq!['[', ']']);
            return;
        }
        push_char(out, '[');
        let inner = deeper(indent, Ghost(depth), pretty);
        let mut i: usize = 0;
        while i < items.len()
            invariant
                i <= items.len(),
                ms.len() == items.len(),
                out@ == before + seq!['['] + write_items(ms.take(i as int), depth, pretty),
            decreases items.len() - i,
        {
            let ghost mid = out@;
            if i > 0 {
                push_char(out, ',');
            }
            push_pad(out, &inner, Ghost(depth + 1), pretty);
            proof {
                assert(decreases_to!(*items => items@));
                assert(decreases_to!(items@ => items@[i as int]));
            }
            items[i].write(out, &inner, Ghost(depth + 1), pretty);
            assert(ms.take(i + 1).drop_last() =~= ms.take(i as int));
            assert(out@ =~= mid + (if i > 0 {
                seq![',']
            } else {
                Seq::empty()
            }) + pad(depth + 1, pretty) + write_model(ms[i as int], depth + 1, pretty));
            i += 1;
        }
        assert(ms.take(items.len() as int) =~= ms);
        push_pad(out, indent, Ghost(depth), pretty);
        push_char(out, ']');
        assert(out@ =~= before + seq!['['] + write_items(ms, depth, pretty) + pad(depth, pretty) + seq![']']);
    }

    #[verifier::loop_isolation(false)]
    #[verifier::spinoff_prover]
    #[verifier::rlimit(40)]
    fn write_obj(fields: &Vec<(String, Json)>, out: &mut String, indent: &String, Ghost(depth): Ghost<nat>, pretty: bool)
        requires
            pretty ==> indent@ == spaces(2 * depth),
        ensures
            final(out)@ == old(out)@ + write_model(
                JsonModel::Obj(Json::field_models(fields@)),
                depth,
                pretty,
            ),
        decreases fields, 0int,
    {
        let ghost before = out@;
        let ghost fs = Json::field_models(fields@);
        proof {
            lemma_field_models(fields@);
        }
        if fields.len() == 0 {
            push_char(out, '{');
            push_char(out, '}');
            assert(out@ =~= before + seq!['{', '}']);
            return;
        }
        push_char(out, '{');
        let inner = deeper(indent, Ghost(depth), pretty);
        let mut i: usize = 0;
        while i < fields.len()
            invariant
                i <= fields.len(),
                fs.len() == fields.len(),
                out@ == before + seq!['{'] + write_fields(fs.take(i as int), depth, pretty),
            decreases fields.len() - i,
        {
            let ghost mid = out@;
            if i > 0 {
                push_char(out, ',');
            }
            push_pad(out, &inner, Ghost(depth + 1), pretty);
            push_key(out, fields[i].0.as_str(), pretty);
            proof {
                assert(decreases_to!(*fields => fields@));
                assert(decreases_to!(fields@ => fields@[i as int]));
                assert(decreases_to!(fields@[i as int] => fields@[i as int].1));
            }
            fields[i].1.write(out, &inner, Ghost(depth + 1), pretty);
            assert(fs.take(i + 1).drop_last() =~= fs.take(i as int));
            assert(out@ =~= mid + (if i > 0 {
                seq![',']
            } else {
                Seq::empty()
            }) + pad(depth + 1, pretty) + key_text(fs[i as int].0, pretty) + write_model(
                fs[i as int].1,
                depth + 1,
                pretty,
            ));
            i += 1;
        }
        assert(fs.take(fields.len() as int) =~= fs);
        push_pad(out, indent, Ghost(depth), pretty);
        push_char(out, '}');
        assert(out@ =~= before + seq!['{'] + write_fields(fs, depth, pretty) + pad(depth, pretty) + seq!['}']);
    }

    /// The indented text of this value.
    pub fn to_string_pretty(&self) -> (r: String)
        ensures
            r@ == write_model(self.model(), 0, true),
    {
        let mut out = String::new();
        let indent = String::new();
        proof {
            reveal_strlit("");
        }
        self.write(&mut out, &indent, Ghost(0), true);
        out
    }
}

} // verus!
