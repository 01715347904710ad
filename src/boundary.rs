use vstd::prelude::*;

verus! {

/// Whether `s` is one or more ASCII decimal digits.
pub open spec fn is_digits(s: Seq<char>) -> bool {
    s.len() > 0 && forall|i: int| 0 <= i < s.len() ==> '0' <= #[trigger] s[i] <= '9'
}

/// The number that the decimal digits `s` write.
pub open spec fn digits_value(s: Seq<char>) -> int
    decreases s.len(),
{
    if s.len() == 0 {
        0
    } else {
        digits_value(s.drop_last()) * 10 + (s.last() as int - '0' as int)
    }
}

/// The integer that `s` writes in decimal with an optional sign, if it is
/// of that form.
pub open spec fn decimal_value(s: Seq<char>) -> Option<int> {
    if s.len() > 0 && s[0] == '-' && is_digits(s.drop_first()) {
        Some(-digits_value(s.drop_first()))
    } else if s.len() > 0 && s[0] == '+' && is_digits(s.drop_first()) {
        Some(digits_value(s.drop_first()))
    } else if is_digits(s) {
        Some(digits_value(s))
    } else {
        None
    }
}

/// Whether `s` writes an `i32` in decimal.
pub open spec fn reads_as_i32(s: Seq<char>) -> bool {
    decimal_value(s) is Some && i32::MIN <= decimal_value(s).unwrap() <= i32::MAX
}

/// Relies on `str::parse::<i32>`: it accepts an optional `+` or `-` and one or
/// more decimal digits whose value fits, and refuses anything else.
#[verifier::external_body]
fn parse_i32(s: &str) -> (r: Option<i32>)
    ensures
        r is Some <==> reads_as_i32(s@),
        r is Some ==> r.unwrap() as int == decimal_value(s@).unwrap(),
{
    s.parse::<i32>().ok()
}

/// Why a value typed by the user was refused.
#[derive(Clone, Copy, Debug, PartialEq, Eq, Structural)]
pub enum ValueError {
    NotANumber,
}

/// Reads a number typed by the user.
pub fn parse_entry(input: &str) -> (r: Result<i32, ValueError>)
    ensures
        r is Ok <==> reads_as_i32(input@),
        r is Ok ==> r->Ok_0 as int == decimal_value(input@).unwrap(),
        r is Err ==> r->Err_0 == ValueError::NotANumber,
{
    match parse_i32(input) {
        Some(v) => Ok(v),
        None => Err(ValueError::NotANumber),
    }
}

/// What an error boundary shows: the normal content, built from the values
/// of all wrapped computations, or the fallback, built from the positions of
/// those that failed.
#[derive(Clone, Debug, PartialEq)]
pub enum BoundaryView {
    Content(Vec<i32>),
    Fallback(Vec<usize>),
}

/// Positions of the failed outcomes in `s`, in increasing order.
pub open spec fn failures(s: Seq<Result<i32, ValueError>>) -> Seq<usize>
    decreases s.len(),
{
    if s.len() == 0 {
        Seq::empty()
    } else if s.last() is Err {
        failures(s.drop_last()).push((s.len() - 1) as usize)
    } else {
        failures(s.drop_last())
    }
}

/// The values of outcomes that all succeeded.
pub open spec fn successes(s: Seq<Result<i32, ValueError>>) -> Seq<i32> {
    Seq::new(s.len(), |i: int| s[i]->Ok_0)
}

/// The fallback shows exactly when some wrapped computation fails, and then
/// lists every failure; as soon as all succeed again the normal content is
/// back, with nothing to reset, since the view depends on the current
/// outcomes alone.
pub proof fn law_fallback_iff_failure(s: Seq<Result<i32, ValueError>>)
    requires
        s.len() <= usize::MAX,
    ensures
        failures(s).len() == 0 <==> forall|i: int| 0 <= i < s.len() ==> (#[trigger] s[i]) is Ok,
        forall|j: int|
            0 <= j < failures(s).len() ==> #[trigger] failures(s)[j] < s.len() && s[failures(
                s,
            )[j] as int] is Err,
        forall|i: int|
            0 <= i < s.len() && (#[trigger] s[i]) is Err ==> failures(s).contains(i as usize),
    decreases s.len(),
{
    if s.len() > 0 {
        let init = s.drop_last();
        law_fallback_iff_failure(init);
        if failures(s).len() == 0 {
            assert forall|i: int| 0 <= i < s.len() implies (#[trigger] s[i]) is Ok by {
                if i < s.len() - 1 {
                    assert(s[i] == init[i]);
                }
            }
        }
        assert forall|i: int| 0 <= i < s.len() && (#[trigger] s[i]) is Err implies failures(s).contains(i as usize) by {
            if i < s.len() - 1 {
                assert(s[i] == init[i]);
                let j = choose|j: int| 0 <= j < failures(init).len() && failures(init)[j] == i as usize;
                assert(failures(s)[j] == i as usize);
            } else {
                assert(failures(s).last() == i as usize);
            }
        }
        assert forall|j: int| 0 <= j < failures(s).len() implies #[trigger] failures(s)[j] < s.len() && s[failures(s)[j] as int] is Err by {
            if j < failures(init).len() {
                assert(failures(s)[j] == failures(init)[j]);
                assert(s[failures(init)[j] as int] == init[failures(init)[j] as int]);
            } else {
                assert(s.last() is Err);
                assert(failures(s)[j] == (s.len() - 1) as usize);
            }
        }
    }
}

/// Decides what a boundary around the given outcomes shows.
pub fn render_boundary(outcomes: &Vec<Result<i32, ValueError>>) -> (r: BoundaryView)
    ensures
        failures(outcomes@).len() > 0 ==> r == BoundaryView::Fallback(r->Fallback_0) && r->Fallback_0@ == failures(outcomes@),
        failures(outcomes@).len() == 0 ==> r == BoundaryView::Content(r->Content_0) && r->Content_0@ == successes(outcomes@),
{
    let mut errs: Vec<usize> = Vec::new();
    let mut vals: Vec<i32> = Vec::new();
    let mut i: usize = 0;
    while i < outcomes.len()
        invariant
            i <= outcomes@.len(),
            errs@ == failures(outcomes@.subrange(0, i as int)),
            vals@.len() == i,
            forall|j: int| 0 <= j < i && outcomes@[j] is Ok ==> #[trigger] vals@[j] == outcomes@[j]->Ok_0,
        decreases outcomes@.len() - i,
    {
        proof {
            let p = outcomes@.subrange(0, i as int + 1);
            assert(p.drop_last() =~= outcomes@.subrange(0, i as int));
        }
        match &outcomes[i] {
            Ok(v) => {
                vals.push(*v);
            },
            Err(_) => {
                errs.push(i);
                vals.push(0);
            },
        }
        i = i + 1;
    }
    assert(outcomes@.subrange(0, i as int) =~= outcomes@);
    if errs.len() > 0 {
        BoundaryView::Fallback(errs)
    } else {
        proof {
            law_fallback_iff_failure(outcomes@);
        }
        assert(vals@ =~= successes(outcomes@));
        BoundaryView::Content(vals)
    }
}

} // verus!
