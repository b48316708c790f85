//! The variable-object codec: decoding a form-encoded query string into
//! properties, and printing an object's enumerable properties back as
//! one. The fetch and send halves of variable loading belong to the
//! host; only this pure text-to-properties logic is the engine's.
use crate::error::AvmError;
use crate::heap::{Context, Heap};
use crate::object::Object;
use crate::value::Value;
use vstd::prelude::*;

verus! {

/// The character sequences of a vector of text pairs.
pub open spec fn spec_pairs_view(v: Seq<(String, String)>) -> Seq<(Seq<char>, Seq<char>)> {
    Seq::new(v.len(), |i: int| (v[i].0@, v[i].1@))
}

/// What the form-urlencoded parse of a query string yields: the pairs
/// in order, percent- and plus-decoding applied. The result is a
/// function of the characters alone.
pub uninterp spec fn decoded_form_pairs(s: Seq<char>) -> Seq<(Seq<char>, Seq<char>)>;

/// Relies on url's `form_urlencoded::parse` over the text's bytes.
#[verifier::external_body]
fn parse_form_pairs(data: &str) -> (r: Vec<(String, String)>)
    ensures
        spec_pairs_view(r@) == decoded_form_pairs(data@),
{
    url::form_urlencoded::parse(data.as_bytes()).map(
        |(k, v)| (k.into_owned(), v.into_owned()),
    ).collect()
}

/// What the form-urlencoded serialisation of the pairs prints: each
/// pair percent-encoded and joined. The result is a function of the
/// pairs alone.
pub uninterp spec fn encoded_form_query(pairs: Seq<(Seq<char>, Seq<char>)>) -> Seq<char>;

/// Relies on url's `form_urlencoded::Serializer`.
#[verifier::external_body]
fn serialize_form_pairs(pairs: &Vec<(String, String)>) -> (r: String)
    ensures
        r@ == encoded_form_query(spec_pairs_view(pairs@)),
{
    url::form_urlencoded::Serializer::new(String::new()).extend_pairs(pairs.iter()).finish()
}

/// Decodes a query string into properties of the object: each decoded
/// pair is written as an ordinary property, in order.
pub fn decode(heap: &mut Heap, this: Object, data: &str, ctx: &Context, fuel: u32) -> (r: Result<
    (),
    AvmError,
>)
    requires
        old(heap).wf(),
        old(heap).has_obj(this),
        old(heap).spec_valid_ctx(*ctx),
    ensures
        final(heap).wf(),
        final(heap).extends(old(heap)),
        final(heap).spec_valid_ctx(*ctx),
{
    let pairs = parse_form_pairs(data);
    let mut i: usize = 0;
    while i < pairs.len()
        invariant
            heap.wf(),
            heap.extends(old(heap)),
            heap.spec_valid_ctx(*ctx),
            heap.has_obj(this),
        decreases pairs@.len() - i,
    {
        let v = Value::Str(pairs[i].1.clone());
        match heap.set(this, pairs[i].0.as_str(), v, ctx, fuel) {
            Ok(_) => {},
            Err(e) => { return Err(e) },
        }
        i += 1;
    }
    Ok(())
}

/// Prints the object's enumerable properties as a form-encoded query
/// string: each key with its value coerced to text (a failing virtual
/// property prints as the absent value's name).
pub fn encode(heap: &mut Heap, this: Object, ctx: &Context, fuel: u32) -> (r: Result<
    String,
    AvmError,
>)
    requires
        old(heap).wf(),
        old(heap).has_obj(this),
        old(heap).spec_valid_ctx(*ctx),
    ensures
        final(heap).wf(),
        final(heap).grown_from(old(heap)),
        final(heap).spec_valid_ctx(*ctx),
        r matches Ok(s) ==> (exists|pairs: Seq<(Seq<char>, Seq<char>)>|
            s@ == encoded_form_query(pairs) && ({
                let ks = old(heap).spec_keys(
                    crate::value::ValueView::Object(this),
                    ctx.spec_case_sensitive(),
                    255,
                );
                pairs.len() == ks.len() && (forall|j: int|
                    0 <= j < pairs.len() ==> (#[trigger] pairs[j]).0 == ks[j])
            })),
{
    let keys = heap.get_keys(this, ctx);
    let mut pairs: Vec<(String, String)> = Vec::new();
    let mut i: usize = 0;
    while i < keys.len()
        invariant
            heap.wf(),
            heap.grown_from(old(heap)),
            heap.spec_valid_ctx(*ctx),
            heap.has_obj(this),
            i <= keys@.len(),
            pairs@.len() == i,
            crate::heap::spec_strs_view(keys@) == old(heap).spec_keys(
                crate::value::ValueView::Object(this),
                ctx.spec_case_sensitive(),
                255,
            ),
            forall|j: int| 0 <= j < i ==> (#[trigger] pairs@[j]).0@ == keys@[j]@,
        decreases keys@.len() - i,
    {
        let v = match heap.get(this, keys[i].as_str(), ctx, fuel) {
            Ok(v) => v,
            Err(_) => Value::Undefined,
        };
        let text = match heap.coerce_to_string(&v, ctx, fuel) {
            Ok(t) => t,
            Err(_) => String::from_str("undefined"),
        };
        pairs.push((keys[i].clone(), text));
        i += 1;
    }
    let encoded = serialize_form_pairs(&pairs);
    proof {
        assert(encoded@ == encoded_form_query(spec_pairs_view(pairs@)));
        let ks = old(heap).spec_keys(
            crate::value::ValueView::Object(this),
            ctx.spec_case_sensitive(),
            255,
        );
        assert forall|j: int| 0 <= j < pairs@.len() implies (#[trigger] spec_pairs_view(
            pairs@,
        )[j]).0 == ks[j] by {
            assert(pairs@[j].0@ == keys@[j]@);
            assert(crate::heap::spec_strs_view(keys@)[j] == keys@[j]@);
        };
    }
    Ok(encoded)
}

} // verus!
