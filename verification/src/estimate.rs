//! From the model's output to a key: the validation of the logits and the
//! ranking of the class probabilities.
use vstd::prelude::*;

use crate::ieee::{
    is_finite, is_finite_bits, lemma_finite_exactly_below_full_exponent, order_key,
    total_order_key,
};
use crate::key::{class_mode, class_number, CamelotKey};
use crate::{Error, CLASS_COUNT};

verus! {

/// An output tensor of the model: its shape and, in row-major order, the bit
/// patterns of its `f32` values.
pub struct OutputTensor {
    pub shape: Vec<usize>,
    pub value_bits: Vec<u32>,
}

/// Whether an output is a well-formed logit vector: shape `[1, 24]`, 24
/// values, all finite.
pub open spec fn valid_logits(shape: Seq<usize>, value_bits: Seq<u32>) -> bool {
    &&& shape == seq![1usize, CLASS_COUNT]
    &&& value_bits.len() == CLASS_COUNT
    &&& forall|i: int| 0 <= i < value_bits.len() ==> is_finite_bits(#[trigger] value_bits[i])
}

/// A shape as a bracketed, comma-separated list of its dimensions, such as
/// `[1, 24]`.
fn shape_text(shape: &Vec<usize>) -> (text: String)
    ensures
        text@.len() >= 2,
        text@[0] == '[',
        text@.last() == ']',
{
    proof {
        reveal_strlit("[");
        reveal_strlit("]");
        reveal_strlit(", ");
    }
    let mut text = String::from_str("[");
    let mut i: usize = 0;
    while i < shape.len()
        invariant
            i <= shape@.len(),
            text@.len() >= 1,
            text@[0] == '[',
        decreases shape@.len() - i,
    {
        if i > 0 {
            text.append(", ");
        }
        text.append(shape[i].to_string().as_str());
        i = i + 1;
    }
    text.append("]");
    text
}

/// An output holds valid logits exactly when its shape is `[1, 24]`, it has
/// 24 values, and no value has an all-ones exponent field.
pub proof fn lemma_valid_logits_exactly(shape: Seq<usize>, value_bits: Seq<u32>)
    ensures
        valid_logits(shape, value_bits) <==> {
            &&& shape.len() == 2
            &&& shape[0] == 1
            &&& shape[1] == 24
            &&& value_bits.len() == 24
            &&& forall|i: int|
                0 <= i < value_bits.len() ==> (#[trigger] value_bits[i] & 0x7f80_0000u32)
                    != 0x7f80_0000u32
        },
{
    assert forall|i: int| 0 <= i < value_bits.len() implies (is_finite_bits(
        #[trigger] value_bits[i],
    ) <==> (value_bits[i] & 0x7f80_0000u32) != 0x7f80_0000u32) by {
        lemma_finite_exactly_below_full_exponent(value_bits[i]);
    }
    if shape.len() == 2 && shape[0] == 1 && shape[1] == 24 {
        assert(shape =~= seq![1usize, CLASS_COUNT]);
    }
}

/// The logits of the model, taken from its `logits` output (`None` when the
/// model returned no such output). The output must have shape `[1, 24]` and
/// 24 finite values; anything else is refused as invalid model output.
pub fn logits_from_output(output: Option<OutputTensor>) -> (result: Result<Vec<u32>, Error>)
    ensures
        result is Ok <==> (output matches Some(t) && valid_logits(t.shape@, t.value_bits@)),
        result matches Ok(logits) ==> (output matches Some(t) && logits@ == t.value_bits@),
        result matches Err(e) ==> e is InvalidModelOutput,
        output is None ==> (result matches Err(Error::InvalidModelOutput(m)) && m@
            == "model did not return \"logits\""@),
{
    let output = match output {
        Some(output) => output,
        None => {
            return Err(Error::InvalidModelOutput(String::from_str("model did not return \"logits\"")));
        },
    };
    let shape_ok = output.shape.len() == 2 && output.shape[0] == 1 && output.shape[1]
        == CLASS_COUNT;
    let mut all_finite = true;
    let mut i: usize = 0;
    while i < output.value_bits.len()
        invariant
            i <= output.value_bits.len(),
            all_finite <==> forall|j: int| 0 <= j < i ==> is_finite_bits(#[trigger] output.value_bits@[j]),
        decreases output.value_bits.len() - i,
    {
        if !is_finite(output.value_bits[i]) {
            all_finite = false;
        }
        i = i + 1;
    }
    if !shape_ok || output.value_bits.len() != CLASS_COUNT || !all_finite {
        proof {
            if shape_ok {
                assert(output.shape@ =~= seq![1usize, CLASS_COUNT]);
            }
        }
        let mut message = String::from_str("expected [1, 24] finite logits, got ");
        message.append(output.value_bits.len().to_string().as_str());
        message.append(" values with shape ");
        message.append(shape_text(&output.shape).as_str());
        return Err(Error::InvalidModelOutput(message));
    }
    assert(output.shape@ =~= seq![1usize, CLASS_COUNT]);
    Ok(output.value_bits)
}

/// Class `i` ranks before class `j` when its probability is larger in the
/// total order of floats, or equal with a smaller index (a stable sort from
/// the most to the least probable class).
pub open spec fn ranks_before(bits: Seq<u32>, i: int, j: int) -> bool {
    ||| total_order_key(bits[i]) > total_order_key(bits[j])
    ||| (total_order_key(bits[i]) == total_order_key(bits[j]) && i < j)
}

/// Class `i` is the most probable: it ranks before every other class.
pub open spec fn is_first_ranked(bits: Seq<u32>, i: int) -> bool {
    &&& 0 <= i < bits.len()
    &&& forall|j: int| 0 <= j < bits.len() && j != i ==> #[trigger] ranks_before(bits, i, j)
}

/// Class `i` is the runner-up behind `best`: it ranks before every class
/// but `best`.
pub open spec fn is_second_ranked(bits: Seq<u32>, best: int, i: int) -> bool {
    &&& 0 <= i < bits.len()
    &&& i != best
    &&& forall|j: int|
        0 <= j < bits.len() && j != i && j != best ==> #[trigger] ranks_before(bits, i, j)
}

/// The outcome of ranking the class probabilities.
pub struct KeySelection {
    /// The key of the most probable class.
    pub key: CamelotKey,
    /// The most probable class.
    pub best_class: usize,
    /// The second most probable class, if there are two classes or more.
    pub runner_up: Option<usize>,
}

/// Ranks the class probabilities, given by their bit patterns, and returns
/// the most probable class, its key and the runner-up. Fails when there is no
/// probability, or when the most probable class is not one of the 24 keys.
pub fn select_key(probability_bits: &[u32]) -> (result: Result<KeySelection, Error>)
    ensures
        probability_bits@.len() == 0 ==> (result matches Err(Error::InvalidModelOutput(m)) && m@
            == "model returned no key probabilities"@),
        0 < probability_bits@.len() <= CLASS_COUNT ==> result is Ok,
        result matches Err(e) ==> e is InvalidModelOutput && forall|i: int|
            #[trigger] is_first_ranked(probability_bits@, i) ==> i >= CLASS_COUNT,
        result matches Ok(selection) ==> {
            &&& is_first_ranked(probability_bits@, selection.best_class as int)
            &&& selection.best_class < CLASS_COUNT
            &&& selection.key.key_number() == class_number(selection.best_class as int)
            &&& selection.key.key_mode() == class_mode(selection.best_class as int)
            &&& (selection.runner_up is None <==> probability_bits@.len() == 1)
            &&& (selection.runner_up matches Some(r) ==> is_second_ranked(
                probability_bits@,
                selection.best_class as int,
                r as int,
            ))
        },
{
    let bits = probability_bits;
    let len = bits.len();
    if len == 0 {
        return Err(
            Error::InvalidModelOutput(String::from_str("model returned no key probabilities")),
        );
    }
    let mut best: usize = 0;
    let mut best_key = order_key(bits[0]);
    let mut i: usize = 1;
    while i < len
        invariant
            len == bits@.len(),
            1 <= i <= len,
            best < i,
            best_key == total_order_key(bits@[best as int]),
            forall|j: int| 0 <= j < i && j != best ==> #[trigger] ranks_before(bits@, best as int, j),
        decreases len - i,
    {
        let key = order_key(bits[i]);
        let ghost old_best = best as int;
        if key > best_key {
            best = i;
            best_key = key;
            assert forall|j: int| 0 <= j < i + 1 && j != best implies #[trigger] ranks_before(
                bits@,
                best as int,
                j,
            ) by {
                if j != old_best {
                    assert(ranks_before(bits@, old_best, j));
                }
            }
        } else {
            assert forall|j: int| 0 <= j < i + 1 && j != best implies #[trigger] ranks_before(
                bits@,
                best as int,
                j,
            ) by {
                if j == i as int {
                } else {
                    assert(ranks_before(bits@, old_best, j));
                }
            }
        }
        i = i + 1;
    }
    assert(is_first_ranked(bits@, best as int));
    let mut runner_up: Option<usize> = None;
    let mut runner_key: u32 = 0;
    let mut k: usize = 0;
    while k < len
        invariant
            len == bits@.len(),
            k <= len,
            best < len,
            runner_up matches Some(r) ==> {
                &&& r < k
                &&& r != best
                &&& runner_key == total_order_key(bits@[r as int])
                &&& forall|j: int|
                    0 <= j < k && j != r && j != best ==> #[trigger] ranks_before(bits@, r as int, j)
            },
            runner_up is None ==> (k == 0 || (k == 1 && best == 0)),
        decreases len - k,
    {
        if k != best {
            let key = order_key(bits[k]);
            match runner_up {
                None => {
                    runner_up = Some(k);
                    runner_key = key;
                },
                Some(r) => {
                    if key > runner_key {
                        runner_up = Some(k);
                        runner_key = key;
                        assert forall|j: int|
                            0 <= j < k + 1 && j != k && j != best implies #[trigger] ranks_before(
                            bits@,
                            k as int,
                            j,
                        ) by {
                            if j != r as int {
                                assert(ranks_before(bits@, r as int, j));
                            }
                        }
                    } else {
                        assert forall|j: int|
                            0 <= j < k + 1 && j != r && j != best implies #[trigger] ranks_before(
                            bits@,
                            r as int,
                            j,
                        ) by {
                            if j != k as int {
                                assert(ranks_before(bits@, r as int, j));
                            }
                        }
                    }
                },
            }
        }
        k = k + 1;
    }
    proof {
        if runner_up is None && len > 1 {
            if best == 0 {
                assert(1 == best);
            } else {
                assert(0 == best);
            }
        }
        assert forall|i: int| #[trigger] is_first_ranked(bits@, i) implies i == best by {
            if i != best {
                assert(ranks_before(bits@, i, best as int));
                assert(ranks_before(bits@, best as int, i));
            }
        }
    }
    let key = CamelotKey::from_class(best)?;
    Ok(KeySelection { key, best_class: best, runner_up })
}

/// Every non-empty list of probabilities has a most probable class.
pub proof fn lemma_first_ranked_exists(bits: Seq<u32>)
    requires
        bits.len() > 0,
    ensures
        exists|i: int| #[trigger] is_first_ranked(bits, i),
    decreases bits.len(),
{
    if bits.len() == 1 {
        assert(is_first_ranked(bits, 0));
    } else {
        let rest = bits.drop_last();
        lemma_first_ranked_exists(rest);
        let j = choose|j: int| #[trigger] is_first_ranked(rest, j);
        let last = bits.len() - 1;
        if total_order_key(bits[last]) > total_order_key(bits[j]) {
            assert forall|k: int| 0 <= k < bits.len() && k != last implies #[trigger] ranks_before(
                bits,
                last,
                k,
            ) by {
                if k != j {
                    assert(ranks_before(rest, j, k));
                }
            }
            assert(is_first_ranked(bits, last));
        } else {
            assert forall|k: int| 0 <= k < bits.len() && k != j implies #[trigger] ranks_before(
                bits,
                j,
                k,
            ) by {
                if k != last {
                    assert(ranks_before(rest, j, k));
                }
            }
            assert(is_first_ranked(bits, j));
        }
    }
}

/// The first output called `name`, taken out of the model's named outputs
/// (`None` when no output has that name).
pub fn take_output(named_outputs: Vec<(String, OutputTensor)>, name: &str) -> (output: Option<
    OutputTensor,
>)
    ensures
        output is None <==> forall|i: int|
            0 <= i < named_outputs@.len() ==> (#[trigger] named_outputs@[i]).0@ != name@,
        output matches Some(t) ==> exists|i: int|
            {
                &&& 0 <= i < named_outputs@.len()
                &&& (#[trigger] named_outputs@[i]).0@ == name@
                &&& named_outputs@[i].1 == t
                &&& forall|j: int| 0 <= j < i ==> (#[trigger] named_outputs@[j]).0@ != name@
            },
{
    let ghost original = named_outputs@;
    let mut outputs = named_outputs;
    let wanted = String::from_str(name);
    let mut i: usize = 0;
    while i < outputs.len()
        invariant
            outputs@ == original,
            named_outputs@ == original,
            wanted@ == name@,
            i <= outputs@.len(),
            forall|j: int| 0 <= j < i ==> (#[trigger] outputs@[j]).0@ != name@,
        decreases outputs@.len() - i,
    {
        if outputs[i].0 == wanted {
            let ghost found = i as int;
            assert(original[found].0@ == name@);
            let (_, tensor) = outputs.remove(i);
            assert(original[found].1 == tensor);
            return Some(tensor);
        }
        i = i + 1;
    }
    None
}

/// The logits among the model's named outputs: the output called `logits`,
/// which must have shape `[1, 24]` and 24 finite values.
pub fn logits_from_outputs(outputs: Vec<(String, OutputTensor)>) -> (result: Result<
    Vec<u32>,
    Error,
>)
    ensures
        result is Ok <==> exists|i: int|
            {
                &&& 0 <= i < outputs@.len()
                &&& (#[trigger] outputs@[i]).0@ == "logits"@
                &&& valid_logits(outputs@[i].1.shape@, outputs@[i].1.value_bits@)
                &&& forall|j: int| 0 <= j < i ==> (#[trigger] outputs@[j]).0@ != "logits"@
            },
        result matches Ok(logits) ==> exists|i: int|
            {
                &&& 0 <= i < outputs@.len()
                &&& (#[trigger] outputs@[i]).0@ == "logits"@
                &&& logits@ == outputs@[i].1.value_bits@
                &&& forall|j: int| 0 <= j < i ==> (#[trigger] outputs@[j]).0@ != "logits"@
            },
        result matches Err(e) ==> e is InvalidModelOutput,
{
    let ghost seen = outputs@;
    let output = take_output(outputs, "logits");
    proof {
        if output is Some {
            let t = output->0;
            let i = choose|i: int|
                {
                    &&& 0 <= i < seen.len()
                    &&& (#[trigger] seen[i]).0@ == "logits"@
                    &&& seen[i].1 == t
                    &&& forall|j: int| 0 <= j < i ==> (#[trigger] seen[j]).0@ != "logits"@
                };
            assert forall|k: int|
                {
                    &&& 0 <= k < seen.len()
                    &&& (#[trigger] seen[k]).0@ == "logits"@
                    &&& forall|j: int| 0 <= j < k ==> (#[trigger] seen[j]).0@ != "logits"@
                } implies k == i by {
                if k < i {
                    assert(seen[k].0@ != "logits"@);
                } else if i < k {
                    assert(seen[i].0@ != "logits"@);
                }
            }
        }
    }
    logits_from_output(output)
}

/// At most one class is the most probable.
pub proof fn lemma_first_ranked_unique(bits: Seq<u32>, i: int, j: int)
    requires
        is_first_ranked(bits, i),
        is_first_ranked(bits, j),
    ensures
        i == j,
{
    if i != j {
        assert(ranks_before(bits, i, j));
        assert(ranks_before(bits, j, i));
    }
}

} // verus!
