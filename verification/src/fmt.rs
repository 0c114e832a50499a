//! Textual views of a network: the structure dump and the state and
//! liveliness rows, character for character.

use vstd::prelude::*;

use crate::bonding::BondingSite;
use crate::node::Node;
use crate::rbn::RBN;

verus! {

/// The character spelling a single decimal digit.
pub open spec fn digit_char(d: nat) -> char {
    if d == 0 {
        '0'
    } else if d == 1 {
        '1'
    } else if d == 2 {
        '2'
    } else if d == 3 {
        '3'
    } else if d == 4 {
        '4'
    } else if d == 5 {
        '5'
    } else if d == 6 {
        '6'
    } else if d == 7 {
        '7'
    } else if d == 8 {
        '8'
    } else {
        '9'
    }
}

/// The decimal spelling of a natural number, most significant digit first.
pub open spec fn dec_digits(v: nat) -> Seq<char>
    decreases v,
{
    if v < 10 {
        seq![digit_char(v)]
    } else {
        dec_digits(v / 10).push(digit_char(v % 10))
    }
}

/// The decimal spelling of an integer, a minus sign leading a negative one.
pub open spec fn dec_int(v: int) -> Seq<char> {
    if v < 0 {
        seq!['-'] + dec_digits((-v) as nat)
    } else {
        dec_digits(v as nat)
    }
}

/// A spelling right-aligned to width three with spaces; wider spellings stay
/// as they are.
pub open spec fn pad3(s: Seq<char>) -> Seq<char> {
    if s.len() >= 3 {
        s
    } else {
        Seq::new((3 - s.len()) as nat, |i: int| ' ') + s
    }
}

/// A row of width-three cells, one per value, each closed by a comma.
pub open spec fn cells(vals: Seq<int>) -> Seq<char>
    decreases vals.len(),
{
    if vals.len() == 0 {
        Seq::empty()
    } else {
        cells(vals.drop_last()) + pad3(dec_int(vals.last())) + seq![',']
    }
}

/// A truth table as comma-closed bits.
pub open spec fn bits_chars(tbl: Seq<bool>) -> Seq<char>
    decreases tbl.len(),
{
    if tbl.len() == 0 {
        Seq::empty()
    } else {
        bits_chars(tbl.drop_last()) + seq![
            if tbl.last() {
                '1'
            } else {
                '0'
            },
            ',',
        ]
    }
}

/// One line of the structure dump: id, table bits, the two input ids, and the
/// influence, tab-separated.
pub open spec fn node_line(nd: Node) -> Seq<char> {
    dec_digits(nd.id as nat) + seq![',', '\t'] + bits_chars(nd.function_table@) + seq!['\t']
        + dec_digits(nd.inputs@[0] as nat) + seq![','] + dec_digits(nd.inputs@[1] as nat) + seq![
        ',',
        '\t',
    ] + dec_digits(
        match nd.influence {
            Some(v) => v as nat,
            None => 0,
        },
    ) + seq!['\n']
}

/// The structure dump's lines for the first `k` nodes.
pub open spec fn structure_lines(nodes: Seq<Node>, k: int) -> Seq<char>
    decreases k,
{
    if k <= 0 {
        Seq::empty()
    } else {
        structure_lines(nodes, k - 1) + node_line(nodes[k - 1])
    }
}

/// The structure dump's header line.
pub open spec fn structure_header() -> Seq<char> {
    seq![
        'I',
        'D',
        '\t',
        'F',
        'u',
        'n',
        'c',
        't',
        'i',
        'o',
        'n',
        '\t',
        'S',
        't',
        'r',
        'u',
        'c',
        't',
        '\t',
        'I',
        'n',
        'f',
        'l',
        'u',
        'e',
        'n',
        'c',
        'e',
        '\n',
    ]
}

/// The ids of a chain joined by comma-space.
pub open spec fn joined_ids(ids: Seq<u16>) -> Seq<char>
    decreases ids.len(),
{
    if ids.len() == 0 {
        Seq::empty()
    } else if ids.len() == 1 {
        dec_digits(ids.last() as nat)
    } else {
        joined_ids(ids.drop_last()) + seq![',', ' '] + dec_digits(ids.last() as nat)
    }
}

/// Relies on String::from_iter (through Iterator::collect) over a character
/// slice: the string holds exactly those characters in order.
#[verifier::external_body]
fn chars_to_string(v: &Vec<char>) -> (r: String)
    ensures
        r@ == v@,
{
    v.iter().collect()
}

/// Relies on str::chars (through Iterator::collect): the characters of the
/// text, in order.
#[verifier::external_body]
fn text_chars(s: &str) -> (r: Vec<char>)
    ensures
        r@ == s@,
{
    s.chars().collect()
}

/// Append the decimal spelling of `v`.
fn push_dec_u64(out: &mut Vec<char>, v: u64)
    ensures
        final(out)@ == old(out)@ + dec_digits(v as nat),
    decreases v,
{
    if v >= 10 {
        push_dec_u64(out, v / 10);
    }
    let d = (v % 10) as u8;
    let c: char = if d == 0 {
        '0'
    } else if d == 1 {
        '1'
    } else if d == 2 {
        '2'
    } else if d == 3 {
        '3'
    } else if d == 4 {
        '4'
    } else if d == 5 {
        '5'
    } else if d == 6 {
        '6'
    } else if d == 7 {
        '7'
    } else if d == 8 {
        '8'
    } else {
        '9'
    };
    out.push(c);
    proof {
        if v < 10 {
            assert(final(out)@ =~= old(out)@ + dec_digits(v as nat));
        } else {
            assert(final(out)@ =~= old(out)@ + dec_digits(v as nat));
        }
    }
}

/// Append one width-three cell holding `v`, closed by a comma.
fn push_cell(out: &mut Vec<char>, v: i64)
    requires
        i32::MIN as i64 <= v,
        v <= i32::MAX as i64,
    ensures
        final(out)@ == old(out)@ + pad3(dec_int(v as int)) + seq![','],
{
    let mut tmp: Vec<char> = Vec::new();
    if v < 0 {
        tmp.push('-');
        push_dec_u64(&mut tmp, (-v) as u64);
        proof {
            assert(tmp@ =~= dec_int(v as int));
        }
    } else {
        push_dec_u64(&mut tmp, v as u64);
        proof {
            assert(tmp@ =~= dec_int(v as int));
        }
    }
    let ghost spelled = tmp@;
    if tmp.len() < 3 {
        let pad = 3 - tmp.len();
        let mut p: usize = 0;
        while p < pad
            invariant
                pad == 3 - spelled.len(),
                spelled.len() < 3,
                p <= pad,
                out@ == old(out)@ + Seq::new(p as nat, |i: int| ' '),
                tmp@ == spelled,
            decreases pad - p,
        {
            out.push(' ');
            proof {
                assert(out@ =~= old(out)@ + Seq::new((p + 1) as nat, |i: int| ' '));
            }
            p = p + 1;
        }
    }
    out.append(&mut tmp);
    out.push(',');
    proof {
        assert(final(out)@ =~= old(out)@ + pad3(dec_int(v as int)) + seq![',']);
    }
}

impl RBN {
    /// The header row: node indices, highest first, in width-three cells.
    pub fn fmt_header(&self) -> (r: String)
        requires
            self.wf(),
        ensures
            r@ == seq![' ', ' '] + cells(
                Seq::new(self.nodes@.len(), |i: int| self.nodes@.len() - 1 - i),
            ),
    {
        let n = self.nodes.len();
        proof {
            if n >= 1 {
                assert(self.nodes@[n as int - 1].id == n as int - 1);
            }
            assert(n <= 0x10000);
        }
        let mut out: Vec<char> = Vec::new();
        out.push(' ');
        out.push(' ');
        let ghost vals = Seq::new(self.nodes@.len(), |i: int| self.nodes@.len() - 1 - i);
        let mut k: usize = n;
        while k > 0
            invariant
                n == self.nodes@.len(),
                n <= 0x10000,
                k <= n,
                vals == Seq::new(self.nodes@.len(), |i: int| self.nodes@.len() - 1 - i),
                out@ == seq![' ', ' '] + cells(vals.take(n as int - k as int)),
            decreases k,
        {
            k = k - 1;
            push_cell(&mut out, k as i64);
            proof {
                let done = vals.take(n as int - k as int);
                assert(done.drop_last() =~= vals.take(n as int - k as int - 1));
                assert(done.last() == k as int);
                assert(out@ =~= seq![' ', ' '] + cells(done));
            }
        }
        proof {
            assert(vals.take(n as int) =~= vals);
        }
        chars_to_string(&out)
    }

    /// The state row: each node's current state as 0 or 1, highest node
    /// first, in width-three cells.
    pub fn fmt_state(&self) -> (r: String)
        requires
            self.wf(),
            self.states_set(),
        ensures
            r@ == seq![' ', ' '] + cells(
                Seq::new(
                    self.nodes@.len(),
                    |i: int|
                        if self.nodes@[self.nodes@.len() - 1 - i].s_t->0 {
                            1int
                        } else {
                            0int
                        },
                ),
            ),
    {
        let n = self.nodes.len();
        let mut out: Vec<char> = Vec::new();
        out.push(' ');
        out.push(' ');
        let ghost vals = Seq::new(
            self.nodes@.len(),
            |i: int|
                if self.nodes@[self.nodes@.len() - 1 - i].s_t->0 {
                    1int
                } else {
                    0int
                },
        );
        let mut k: usize = n;
        while k > 0
            invariant
                self.wf(),
                self.states_set(),
                n == self.nodes@.len(),
                k <= n,
                vals == Seq::new(
                    self.nodes@.len(),
                    |i: int|
                        if self.nodes@[self.nodes@.len() - 1 - i].s_t->0 {
                            1int
                        } else {
                            0int
                        },
                ),
                out@ == seq![' ', ' '] + cells(vals.take(n as int - k as int)),
            decreases k,
        {
            k = k - 1;
            let b: i64 = match self.nodes[k].s_t {
                Some(true) => 1,
                Some(false) => 0,
                None => unreached(),
            };
            push_cell(&mut out, b);
            proof {
                let done = vals.take(n as int - k as int);
                assert(done.drop_last() =~= vals.take(n as int - k as int - 1));
                assert(done.last() == b as int);
                assert(out@ =~= seq![' ', ' '] + cells(done));
            }
        }
        proof {
            assert(vals.take(n as int) =~= vals);
        }
        chars_to_string(&out)
    }

    /// The cycle-liveliness row: each node's cycle tally, highest node first,
    /// in width-three cells behind the `CL` tag.
    pub fn fmt_cycle_liveliness(&self) -> (r: String)
        requires
            forall|i: int|
                0 <= i < self.nodes@.len() ==> (#[trigger] self.nodes@[i]).cycle_liveliness
                    is Some,
        ensures
            r@ == seq!['C', 'L'] + cells(
                Seq::new(
                    self.nodes@.len(),
                    |i: int| self.nodes@[self.nodes@.len() - 1 - i].cycle_liveliness->0 as int,
                ),
            ),
    {
        let n = self.nodes.len();
        let mut out: Vec<char> = Vec::new();
        out.push('C');
        out.push('L');
        let ghost vals = Seq::new(
            self.nodes@.len(),
            |i: int| self.nodes@[self.nodes@.len() - 1 - i].cycle_liveliness->0 as int,
        );
        let mut k: usize = n;
        while k > 0
            invariant
                forall|i: int|
                    0 <= i < self.nodes@.len() ==> (#[trigger] self.nodes@[i]).cycle_liveliness
                        is Some,
                n == self.nodes@.len(),
                k <= n,
                vals == Seq::new(
                    self.nodes@.len(),
                    |i: int| self.nodes@[self.nodes@.len() - 1 - i].cycle_liveliness->0 as int,
                ),
                out@ == seq!['C', 'L'] + cells(vals.take(n as int - k as int)),
            decreases k,
        {
            k = k - 1;
            let b: i64 = match self.nodes[k].cycle_liveliness {
                Some(v) => v as i64,
                None => unreached(),
            };
            push_cell(&mut out, b);
            proof {
                let done = vals.take(n as int - k as int);
                assert(done.drop_last() =~= vals.take(n as int - k as int - 1));
                assert(done.last() == b as int);
                assert(out@ =~= seq!['C', 'L'] + cells(done));
            }
        }
        proof {
            assert(vals.take(n as int) =~= vals);
        }
        chars_to_string(&out)
    }

    /// The transient-liveliness row: each node's transient tally, highest
    /// node first, in width-three cells behind the `TL` tag.
    pub fn fmt_trans_liveliness(&self) -> (r: String)
        requires
            forall|i: int|
                0 <= i < self.nodes@.len() ==> (#[trigger] self.nodes@[i]).trans_liveliness
                    is Some,
        ensures
            r@ == seq!['T', 'L'] + cells(
                Seq::new(
                    self.nodes@.len(),
                    |i: int| self.nodes@[self.nodes@.len() - 1 - i].trans_liveliness->0 as int,
                ),
            ),
    {
        let n = self.nodes.len();
        let mut out: Vec<char> = Vec::new();
        out.push('T');
        out.push('L');
        let ghost vals = Seq::new(
            self.nodes@.len(),
            |i: int| self.nodes@[self.nodes@.len() - 1 - i].trans_liveliness->0 as int,
        );
        let mut k: usize = n;
        while k > 0
            invariant
                forall|i: int|
                    0 <= i < self.nodes@.len() ==> (#[trigger] self.nodes@[i]).trans_liveliness
                        is Some,
                n == self.nodes@.len(),
                k <= n,
                vals == Seq::new(
                    self.nodes@.len(),
                    |i: int| self.nodes@[self.nodes@.len() - 1 - i].trans_liveliness->0 as int,
                ),
                out@ == seq!['T', 'L'] + cells(vals.take(n as int - k as int)),
            decreases k,
        {
            k = k - 1;
            let b: i64 = match self.nodes[k].trans_liveliness {
                Some(v) => v as i64,
                None => unreached(),
            };
            push_cell(&mut out, b);
            proof {
                let done = vals.take(n as int - k as int);
                assert(done.drop_last() =~= vals.take(n as int - k as int - 1));
                assert(done.last() == b as int);
                assert(out@ =~= seq!['T', 'L'] + cells(done));
            }
        }
        proof {
            assert(vals.take(n as int) =~= vals);
        }
        chars_to_string(&out)
    }

    /// The structure dump: a header line, then one line per node with its id,
    /// truth table, input ids and influence, in construction order.
    #[verifier::rlimit(100)]
    pub fn fmt_structure(&self) -> (r: String)
        requires
            self.wf(),
        ensures
            r@ == structure_header() + structure_lines(
                self.nodes@,
                self.nodes@.len() as int,
            ),
    {
        let n = self.nodes.len();
        let mut out: Vec<char> = Vec::new();
        let header = "ID\tFunction\tStruct\tInfluence\n";
        let hvec: Vec<char> = text_chars(header);
        proof {
            reveal_strlit("ID\tFunction\tStruct\tInfluence\n");
            assert(hvec@ =~= structure_header());
        }
        let mut out = hvec;
        let mut k: usize = 0;
        while k < n
            invariant
                self.wf(),
                n == self.nodes@.len(),
                k <= n,
                out@ == structure_header() + structure_lines(self.nodes@, k as int),
            decreases n - k,
        {
            let nd_id = self.nodes[k].id;
            push_dec_u64(&mut out, nd_id as u64);
            out.push(',');
            out.push('\t');
            let ghost bits_base = out@;
            let tbl_len = self.nodes[k].function_table.len();
            let mut b: usize = 0;
            while b < tbl_len
                invariant
                    n == self.nodes@.len(),
                    k < n,
                    tbl_len == self.nodes@[k as int].function_table@.len(),
                    b <= tbl_len,
                    out@ == bits_base + bits_chars(
                        self.nodes@[k as int].function_table@.take(b as int),
                    ),
                decreases tbl_len - b,
            {
                if self.nodes[k].function_table[b] {
                    out.push('1');
                } else {
                    out.push('0');
                }
                out.push(',');
                proof {
                    let done = self.nodes@[k as int].function_table@.take(b as int + 1);
                    assert(done.drop_last() =~= self.nodes@[k as int].function_table@.take(
                        b as int,
                    ));
                    assert(done.last() == self.nodes@[k as int].function_table@[b as int]);
                    assert(out@ =~= bits_base + bits_chars(done));
                }
                b = b + 1;
            }
            proof {
                assert(self.nodes@[k as int].function_table@.take(tbl_len as int)
                    =~= self.nodes@[k as int].function_table@);
            }
            out.push('\t');
            push_dec_u64(&mut out, self.nodes[k].inputs[0] as u64);
            out.push(',');
            push_dec_u64(&mut out, self.nodes[k].inputs[1] as u64);
            out.push(',');
            out.push('\t');
            let infl: u16 = match self.nodes[k].influence {
                Some(v) => v,
                None => 0,
            };
            push_dec_u64(&mut out, infl as u64);
            out.push('\n');
            proof {
                assert(structure_lines(self.nodes@, k as int + 1) == structure_lines(
                    self.nodes@,
                    k as int,
                ) + node_line(self.nodes@[k as int]));
                assert(out@ =~= structure_header() + structure_lines(
                    self.nodes@,
                    k as int + 1,
                ));
            }
            k = k + 1;
        }
        chars_to_string(&out)
    }
}

impl BondingSite {
    /// The chain as text: its node ids between square brackets, joined by
    /// comma-space. An empty chain collapses to a lone closing bracket.
    pub fn to_text(&self) -> (r: String)
        ensures
            self.interaction_list@.len() == 0 ==> r@ == seq![']'],
            self.interaction_list@.len() >= 1 ==> r@ == seq!['['] + joined_ids(
                self.interaction_list@,
            ) + seq![']'],
    {
        let n = self.interaction_list.len();
        let mut out: Vec<char> = Vec::new();
        if n == 0 {
            out.push(']');
            proof {
                assert(out@ =~= seq![']']);
            }
            return chars_to_string(&out);
        }
        out.push('[');
        let mut k: usize = 0;
        while k < n
            invariant
                n == self.interaction_list@.len(),
                1 <= n,
                k <= n,
                k == 0 ==> out@ == seq!['['],
                k >= 1 ==> out@ == seq!['['] + joined_ids(self.interaction_list@.take(k as int)),
            decreases n - k,
        {
            if k > 0 {
                out.push(',');
                out.push(' ');
            }
            push_dec_u64(&mut out, self.interaction_list[k] as u64);
            proof {
                let done = self.interaction_list@.take(k as int + 1);
                assert(done.drop_last() =~= self.interaction_list@.take(k as int));
                assert(done.last() == self.interaction_list@[k as int]);
                assert(out@ =~= seq!['['] + joined_ids(done));
            }
            k = k + 1;
        }
        out.push(']');
        proof {
            assert(self.interaction_list@.take(n as int) =~= self.interaction_list@);
            assert(out@ =~= seq!['['] + joined_ids(self.interaction_list@) + seq![']']);
        }
        chars_to_string(&out)
    }
}

} // verus!
