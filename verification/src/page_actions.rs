//! Driving a page from the command line: filling its inputs from
//! `name=value` fields, finding a button by id or label, and the body a
//! button's POST sends.

use vstd::prelude::*;
use crate::text;
use crate::document::{blocks_view, copy_block, Block, BlockV, Button, ButtonV, Input, InputV};
use crate::forms::{input_pairs, input_payload_from_blocks, percent_encode, percent_encoded};

verus! {

broadcast use vstd::string::group_string_axioms;

/// The value the fields give `name`: that of the last `name=value` field
/// (cut at its first `=`) that names it.
pub open spec fn field_value(fs: Seq<Seq<char>>, name: Seq<char>) -> Option<Seq<char>>
    decreases fs.len(),
{
    if fs.len() == 0 {
        None
    } else {
        let f = fs.last();
        let k = text::char_from(f, '=', 0);
        if k < f.len() && f.take(k) == name {
            Some(f.skip(k + 1))
        } else {
            field_value(fs.drop_last(), name)
        }
    }
}

/// A block with its input's value taken from the fields, where they name it.
pub open spec fn filled_block(b: BlockV, fs: Seq<Seq<char>>) -> BlockV {
    match b {
        BlockV::Input(i) => match field_value(fs, i.name) {
            Some(v) => BlockV::Input(InputV { value: v, ..i }),
            None => b,
        },
        _ => b,
    }
}

pub open spec fn strings_of(v: Seq<String>) -> Seq<Seq<char>> {
    v.map_values(|s: String| s@)
}

fn field_value_exec(fields: &[String], name: &str) -> (r: Option<String>)
    ensures
        match field_value(strings_of(fields@), name@) {
            Some(v) => r matches Some(s) && s@ == v,
            None => r is None,
        },
{
    let ghost fs = strings_of(fields@);
    let n = text::chars_of(name);
    let mut i = fields.len();
    assert(fs.take(i as int) =~= fs);
    while i > 0
        invariant
            i <= fields@.len(),
            fs == strings_of(fields@),
            n@ == name@,
            field_value(fs, name@) == field_value(fs.take(i as int), name@),
        decreases i,
    {
        let f = text::chars_of(fields[i - 1].as_str());
        let k = text::find_char(f.as_slice(), '=', 0);
        proof {
            text::lemma_char_from(f@, '=', 0);
            assert(fs.take(i as int).last() == f@);
            assert(fs.take(i as int).drop_last() =~= fs.take(i - 1));
        }
        if k < f.len() {
            let key = text::slice_of(f.as_slice(), 0, k);
            assert(key@ =~= f@.take(k as int));
            if text::chars_eq(key.as_slice(), n.as_slice()) {
                let v = text::slice_of(f.as_slice(), k + 1, f.len());
                assert(v@ =~= f@.skip(k + 1));
                return Some(text::string_from(v.as_slice()));
            }
        }
        i = i - 1;
    }
    assert(fs.take(0) =~= Seq::<Seq<char>>::empty());
    None
}

/// The blocks with each input's value taken from the fields that name it.
pub fn fill_inputs(blocks: &[Block], fields: &[String]) -> (r: Vec<Block>)
    ensures
        blocks_view(r@) == blocks_view(blocks@).map_values(|b: BlockV| filled_block(b, strings_of(fields@))),
{
    let ghost fs = strings_of(fields@);
    let ghost want = blocks_view(blocks@).map_values(|b: BlockV| filled_block(b, fs));
    let mut out: Vec<Block> = Vec::new();
    let mut i: usize = 0;
    while i < blocks.len()
        invariant
            i <= blocks@.len(),
            fs == strings_of(fields@),
            want == blocks_view(blocks@).map_values(|b: BlockV| filled_block(b, fs)),
            blocks_view(out@) == want.take(i as int),
        decreases blocks@.len() - i,
    {
        let ghost before = blocks_view(out@);
        let nb = match &blocks[i] {
            Block::Input(input) => match field_value_exec(fields, input.name.as_str()) {
                Some(v) => Block::Input(
                    Input {
                        name: input.name.clone(),
                        label: input.label.clone(),
                        value: v,
                        placeholder: input.placeholder.clone(),
                    },
                ),
                None => copy_block(&blocks[i]),
            },
            _ => copy_block(&blocks[i]),
        };
        proof {
            assert(want[i as int] == filled_block(blocks@[i as int]@, fs));
        }
        assert(nb@ == want[i as int]);
        out.push(nb);
        proof {
            assert(blocks_view(out@) =~= before.push(nb@));
            assert(want.take(i + 1) =~= want.take(i as int).push(want[i as int]));
        }
        i = i + 1;
    }
    assert(want.take(blocks@.len() as int) =~= want);
    out
}

/// The first button whose id or label is `key`.
pub open spec fn button_named(bs: Seq<BlockV>, key: Seq<char>) -> Option<ButtonV>
    decreases bs.len(),
{
    if bs.len() == 0 {
        None
    } else {
        match bs[0] {
            BlockV::Button(b) => if b.id == key || b.label == key {
                Some(b)
            } else {
                button_named(bs.drop_first(), key)
            },
            _ => button_named(bs.drop_first(), key),
        }
    }
}

pub fn find_button<'a>(blocks: &'a [Block], key: &str) -> (r: Option<&'a Button>)
    ensures
        match button_named(blocks_view(blocks@), key@) {
            Some(b) => r matches Some(x) && x@ == b,
            None => r is None,
        },
{
    let ghost bs = blocks_view(blocks@);
    let k = text::chars_of(key);
    let mut i: usize = 0;
    assert(bs.skip(0) =~= bs);
    while i < blocks.len()
        invariant
            i <= blocks@.len(),
            bs == blocks_view(blocks@),
            k@ == key@,
            button_named(bs, key@) == button_named(bs.skip(i as int), key@),
        decreases blocks@.len() - i,
    {
        proof {
            assert(bs.skip(i as int)[0] == blocks@[i as int]@);
            assert(bs.skip(i as int).drop_first() =~= bs.skip(i + 1));
        }
        match &blocks[i] {
            Block::Button(b) => {
                let id = text::chars_of(b.id.as_str());
                let label = text::chars_of(b.label.as_str());
                if text::chars_eq(id.as_slice(), k.as_slice()) || text::chars_eq(label.as_slice(), k.as_slice()) {
                    return Some(b);
                }
            },
            _ => {},
        }
        i = i + 1;
    }
    assert(bs.skip(blocks@.len() as int) =~= Seq::<BlockV>::empty());
    None
}

/// The body a button's POST sends: the page's input pairs, then `&` where
/// there are any, then `button=` and the button's id, percent-encoded.
pub open spec fn click_body(bs: Seq<BlockV>, id: Seq<char>) -> Seq<char> {
    let p = text::join(input_pairs(bs), seq!['&']);
    p + (if p.len() > 0 {
        seq!['&']
    } else {
        Seq::empty()
    }) + "button="@ + percent_encoded(id)
}

pub fn click_payload(blocks: &[Block], button_id: &str) -> (r: String)
    ensures
        r@ == click_body(blocks_view(blocks@), button_id@),
{
    let p = input_payload_from_blocks(blocks);
    let mut out = text::chars_of(p.as_str());
    if out.len() > 0 {
        out.push('&');
    }
    text::push_str(&mut out, "button=");
    let id = percent_encode(button_id);
    text::push_str(&mut out, id.as_str());
    proof {
        assert(out@ =~= click_body(blocks_view(blocks@), button_id@));
    }
    text::string_from(out.as_slice())
}

} // verus!
