use vstd::prelude::*;
use crate::types::{Request, Response, RpcResult};

verus! {

/// The byte that ends each record of the channel.
pub const NEWLINE: u8 = 10;

/// Id of the reply to a record that could not be decoded.
pub const UNDECODABLE_ID: usize = 0;

/// Takes the first whole record out of `buf`, newline and all; the record
/// is returned without its newline. Returns `None`, leaving `buf` as it is,
/// when no newline has come yet.
pub fn take_record(buf: &mut Vec<u8>) -> (r: Option<Vec<u8>>)
    ensures
        r is Some <==> old(buf)@.contains(NEWLINE),
        r is None ==> final(buf)@ == old(buf)@,
        r matches Some(rec) ==> !rec@.contains(NEWLINE) && old(buf)@ == rec@ + seq![NEWLINE] + final(buf)@,
{
    let mut k: usize = 0;
    while k < buf.len() && buf[k] != NEWLINE
        invariant
            k <= buf@.len(),
            forall|j: int| 0 <= j < k ==> buf@[j] != NEWLINE,
        decreases buf@.len() - k,
    {
        k = k + 1;
    }
    if k == buf.len() {
        assert(!buf@.contains(NEWLINE));
        return None;
    }
    let ghost whole = buf@;
    let rest = buf.split_off(k + 1);
    let _ = buf.pop();
    let mut rec = rest;
    std::mem::swap(&mut rec, buf);
    proof {
        assert(whole[k as int] == NEWLINE);
        assert(!rec@.contains(NEWLINE)) by {
            if rec@.contains(NEWLINE) {
                let j = choose|j: int| 0 <= j < rec@.len() && rec@[j] == NEWLINE;
                assert(whole[j] == NEWLINE);
            }
        }
        assert(whole =~= rec@ + seq![NEWLINE] + buf@);
    }
    Some(rec)
}

/// What becomes of one decoded record: a request to dispatch, or the reply
/// to a record that could not be decoded.
pub fn read_request(decoded: Result<Request, String>) -> (r: Result<Request, Response<bool>>)
    ensures
        decoded matches Ok(req) ==> r == Ok::<Request, Response<bool>>(req),
        decoded matches Err(e) ==> (r matches Err(resp) && resp.id == UNDECODABLE_ID
            && resp.res == RpcResult::<bool>::Failed(e)),
{
    match decoded {
        Ok(req) => Ok(req),
        Err(e) => Err(Response::new(UNDECODABLE_ID, RpcResult::Failed(e))),
    }
}

/// One encoded message as written to the channel: its bytes, then a newline.
pub fn frame_response(msg: Vec<u8>) -> (r: Vec<u8>)
    ensures
        r@ == msg@.push(NEWLINE),
{
    let mut r = msg;
    r.push(NEWLINE);
    r
}

/// A record that cannot be decoded does not hold up the ones after it: of
/// `bad`, newline, `good`, newline, `rest`, the records come out as `bad`,
/// then `good`, and `rest` stays.
pub proof fn records_come_out_in_turn(bad: Seq<u8>, good: Seq<u8>, rest: Seq<u8>)
    requires
        !bad.contains(NEWLINE),
        !good.contains(NEWLINE),
    ensures
        ({
            let buf = bad + seq![NEWLINE] + good + seq![NEWLINE] + rest;
            forall|rec: Seq<u8>, tail: Seq<u8>|
                !rec.contains(NEWLINE) && buf == rec + seq![NEWLINE] + tail
                ==> rec == bad && tail == good + seq![NEWLINE] + rest
        }),
        forall|rec: Seq<u8>, tail: Seq<u8>|
            !rec.contains(NEWLINE) && good + seq![NEWLINE] + rest == rec + seq![NEWLINE] + tail
            ==> rec == good && tail == rest,
{
    let buf = bad + seq![NEWLINE] + good + seq![NEWLINE] + rest;
    assert forall|rec: Seq<u8>, tail: Seq<u8>|
        !rec.contains(NEWLINE) && buf == rec + seq![NEWLINE] + tail
        implies rec == bad && tail == good + seq![NEWLINE] + rest by {
        assert(buf =~= bad + seq![NEWLINE] + (good + seq![NEWLINE] + rest));
        lemma_split_at_first_newline(bad, good + seq![NEWLINE] + rest, rec, tail);
    }
    assert forall|rec: Seq<u8>, tail: Seq<u8>|
        !rec.contains(NEWLINE) && good + seq![NEWLINE] + rest == rec + seq![NEWLINE] + tail
        implies rec == good && tail == rest by {
        lemma_split_at_first_newline(good, rest, rec, tail);
    }
}

proof fn lemma_split_at_first_newline(a: Seq<u8>, b: Seq<u8>, c: Seq<u8>, d: Seq<u8>)
    requires
        !a.contains(NEWLINE),
        !c.contains(NEWLINE),
        a + seq![NEWLINE] + b == c + seq![NEWLINE] + d,
    ensures
        a == c,
        b == d,
{
    let s = a + seq![NEWLINE] + b;
    if a.len() < c.len() {
        assert(s[a.len() as int] == NEWLINE);
        assert(c[a.len() as int] == s[a.len() as int]);
    } else if c.len() < a.len() {
        assert(s[c.len() as int] == (c + seq![NEWLINE] + d)[c.len() as int]);
        assert(a[c.len() as int] == s[c.len() as int]);
    }
    assert(a =~= s.take(a.len() as int));
    assert(c =~= (c + seq![NEWLINE] + d).take(c.len() as int));
    assert(b =~= s.skip(a.len() as int + 1));
    assert(d =~= (c + seq![NEWLINE] + d).skip(c.len() as int + 1));
}

} // verus!
