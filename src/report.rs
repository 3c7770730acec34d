use vstd::prelude::*;
use vstd::string::StringExecFns;

use crate::input::{InputModel, TransactionInput};
use crate::text::{encode_hex, hex_text};
use crate::transaction::{BitcoinTransaction, TransactionModel};

verus! {

/// The decimal digits, by value.
pub open spec fn decimal_digits() -> Seq<char> {
    seq!['0', '1', '2', '3', '4', '5', '6', '7', '8', '9']
}

/// `n` in decimal, without leading zeros.
pub open spec fn decimal_text(n: nat) -> Seq<char>
    decreases n,
{
    if n < 10 {
        seq![decimal_digits()[n as int]]
    } else {
        decimal_text(n / 10) + seq![decimal_digits()[(n % 10) as int]]
    }
}

/// The lines that describe one input.
pub open spec fn input_report(x: InputModel) -> Seq<char> {
    "    Input:\n"@ + "      Previous Output:\n"@ + "        Txid: "@ + hex_text(
        x.previous_output.txid,
    ) + "\n"@ + "        Previous Output Vout: "@ + decimal_text(x.previous_output.vout as nat)
        + "\n"@ + "      Script Sig:\n"@ + "        Length: "@ + decimal_text(x.script_sig.len())
        + "\n"@ + "        Bytes: "@ + hex_text(x.script_sig) + "\n"@ + "      Sequence: "@
        + decimal_text(x.sequence as nat) + "\n"@
}

/// The lines that describe `xs`, in order.
pub open spec fn inputs_report(xs: Seq<InputModel>) -> Seq<char>
    decreases xs.len(),
{
    if xs.len() == 0 {
        Seq::empty()
    } else {
        inputs_report(xs.drop_last()) + input_report(xs.last())
    }
}

/// The readable description of a transaction: its version, each input with
/// identifiers and scripts in lowercase hexadecimal, and its lock time.
pub open spec fn report_text(t: TransactionModel) -> Seq<char> {
    "Transaction:\n"@ + "  Version: "@ + decimal_text(t.version as nat) + "\n"@ + "  Inputs: [\n"@
        + inputs_report(t.inputs) + "  ]\n"@ + "  Lock Time: "@ + decimal_text(t.lock_time as nat)
        + "\n"@
}

/// Relies on the `Display` of `u64`, through `to_string`: the decimal digits
/// of the value, without sign or leading zeros.
#[verifier::external_body]
fn decimal(n: u64) -> (r: String)
    ensures
        r@ == decimal_text(n as nat),
{
    n.to_string()
}

fn append_input_report(out: &mut String, x: &TransactionInput)
    ensures
        final(out)@ == old(out)@ + input_report(x@),
{
    let ghost start = out@;
    out.append("    Input:\n");
    out.append("      Previous Output:\n");
    out.append("        Txid: ");
    out.append(encode_hex(x.previous_output.txid.0.as_slice()).as_str());
    out.append("\n");
    out.append("        Previous Output Vout: ");
    out.append(decimal(x.previous_output.vout as u64).as_str());
    out.append("\n");
    out.append("      Script Sig:\n");
    out.append("        Length: ");
    out.append(decimal(x.script_sig.bytes.len() as u64).as_str());
    out.append("\n");
    out.append("        Bytes: ");
    out.append(encode_hex(x.script_sig.bytes.as_slice()).as_str());
    out.append("\n");
    out.append("      Sequence: ");
    out.append(decimal(x.sequence as u64).as_str());
    out.append("\n");
    assert(out@ =~= start + input_report(x@));
}

impl BitcoinTransaction {
    /// The readable multi-line description of the transaction.
    pub fn to_string(&self) -> (r: String)
        ensures
            r@ == report_text(self@),
    {
        let ghost xs = self@.inputs;
        let mut out = String::new();
        out.append("Transaction:\n");
        out.append("  Version: ");
        out.append(decimal(self.version as u64).as_str());
        out.append("\n");
        out.append("  Inputs: [\n");
        let ghost head = out@;
        let mut i: usize = 0;
        while i < self.inputs.len()
            invariant
                i <= self.inputs.len(),
                xs == self@.inputs,
                out@ == head + inputs_report(xs.take(i as int)),
            decreases self.inputs.len() - i,
        {
            append_input_report(&mut out, &self.inputs[i]);
            proof {
                assert(xs.take(i + 1).drop_last() =~= xs.take(i as int));
                assert(head + inputs_report(xs.take(i + 1)) =~= head + inputs_report(
                    xs.take(i as int),
                ) + input_report(xs[i as int]));
            }
            i += 1;
        }
        assert(xs.take(i as int) =~= xs);
        out.append("  ]\n");
        out.append("  Lock Time: ");
        out.append(decimal(self.lock_time as u64).as_str());
        out.append("\n");
        assert(out@ =~= report_text(self@));
        out
    }
}

} // verus!
