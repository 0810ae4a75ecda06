use vstd::prelude::*;

verus! {

/// The ASCII byte of a decimal digit.
pub open spec fn digit_byte(d: nat) -> u8 {
    (48 + d) as u8
}

/// The decimal form of `n`, without leading zeros.
pub open spec fn decimal(n: nat) -> Seq<u8>
    decreases n,
{
    if n < 10 {
        seq![digit_byte(n)]
    } else {
        decimal(n / 10).push(digit_byte(n % 10))
    }
}

/// Ids written in decimal and separated by commas; no ids give no text.
pub open spec fn joined(ids: Seq<usize>) -> Seq<u8>
    decreases ids.len(),
{
    if ids.len() == 0 {
        Seq::empty()
    } else if ids.len() == 1 {
        decimal(ids[0] as nat)
    } else {
        joined(ids.drop_last()) + seq![44u8] + decimal(ids.last() as nat)
    }
}

/// Appends the decimal form of `n` to `out`.
pub fn push_decimal(out: &mut Vec<u8>, n: usize)
    ensures
        final(out)@ == old(out)@ + decimal(n as nat),
    decreases n,
{
    let ghost start = out@;
    if n >= 10 {
        push_decimal(out, n / 10);
    }
    let d: u8 = (n % 10) as u8;
    out.push(48u8 + d);
    proof {
        if n >= 10 {
            assert(out@ =~= start + decimal(n as nat / 10).push(digit_byte(n as nat % 10)));
        } else {
            assert(out@ =~= start + seq![digit_byte(n as nat)]);
        }
    }
}

/// The decimal form of `n`.
pub fn decimal_text(n: usize) -> (r: Vec<u8>)
    ensures
        r@ == decimal(n as nat),
{
    let mut r: Vec<u8> = Vec::new();
    push_decimal(&mut r, n);
    assert(r@ =~= decimal(n as nat));
    r
}

/// The ids in decimal, joined by commas.
pub fn join_ids(ids: &Vec<usize>) -> (r: Vec<u8>)
    ensures
        r@ == joined(ids@),
{
    let mut r: Vec<u8> = Vec::new();
    let mut i: usize = 0;
    while i < ids.len()
        invariant
            i <= ids@.len(),
            r@ == joined(ids@.take(i as int)),
        decreases ids@.len() - i,
    {
        let ghost before = r@;
        if i > 0 {
            r.push(44u8);
        }
        push_decimal(&mut r, ids[i]);
        proof {
            let next = ids@.take(i + 1);
            assert(next.drop_last() =~= ids@.take(i as int));
            assert(next.last() == ids@[i as int]);
            if i == 0 {
                assert(r@ =~= decimal(ids@[0] as nat));
            } else {
                assert(r@ =~= before + seq![44u8] + decimal(ids@[i as int] as nat));
            }
        }
        i = i + 1;
    }
    assert(ids@.take(ids@.len() as int) =~= ids@);
    r
}

} // verus!
