//! The textual-assembly emitter: renders a program as an assembler source
//! file for an external assembler and linker, one instruction template per
//! recognized symbol, with numbered loop labels.

use crate::text::{dec_str, usize_to_string};
use vstd::prelude::*;
use vstd::string::*;

verus! {

/// Number of occurrences of `c` in `s` at or after position `i`.
pub open spec fn occurrences(s: Seq<char>, i: int, c: char) -> nat
    decreases s.len() - i,
{
    if i < 0 || i >= s.len() {
        0
    } else {
        (if s[i] == c {
            1nat
        } else {
            0nat
        }) + occurrences(s, i + 1, c)
    }
}

/// Whether, scanning `s` from position `i` with `depth` loops open, no
/// `]` ever appears with no loop open.
pub open spec fn brackets_ok(s: Seq<char>, i: int, depth: nat) -> bool
    decreases s.len() - i,
{
    if i < 0 || i >= s.len() {
        true
    } else if s[i] == '[' {
        brackets_ok(s, i + 1, depth + 1)
    } else if s[i] == ']' {
        depth > 0 && brackets_ok(s, i + 1, (depth - 1) as nat)
    } else {
        brackets_ok(s, i + 1, depth)
    }
}

/// The fixed text that precedes the translated program.
pub open spec fn header_text() -> Seq<char> {
    "global    _main\nextern    _printf\ndefault    rel\n\n\nsection   .text\n_main:  \n    sub    rsp, 8 ; Align the stack pointer \n    mov    r8, cell ; r8 will be our data pointer\n    mov    r9, output ; r9 will be our output pointer\n"@
}

/// The fixed text that follows the translated program, before the
/// reserved-space lines.
pub open spec fn footer_text() -> Seq<char> {
    "    mov rax, 0\n    mov rdi, output\n    call _printf\n    add rsp, 8 ; Undo stack alignment\nret\n    mov    rax, 0x2000001 ; Exit\n    mov    rdi, 0\n    syscall\n\nsection   .bss\n\n"@
}

/// The instruction text for the program from position `i` onward, with
/// `counter` loop labels already numbered and `stack` holding the label
/// numbers of the loops currently open. Each `[` takes the next label
/// number; each `]` jumps back to the most recently opened label.
pub open spec fn body_text(s: Seq<char>, i: int, counter: nat, stack: Seq<nat>) -> Seq<char>
    decreases s.len() - i,
{
    if i < 0 || i >= s.len() {
        Seq::empty()
    } else {
        let c = s[i];
        if c == '>' {
            "    inc    r8\n"@ + body_text(s, i + 1, counter, stack)
        } else if c == '<' {
            "    dec    r8\n"@ + body_text(s, i + 1, counter, stack)
        } else if c == '+' {
            "    inc    byte [r8]\n"@ + body_text(s, i + 1, counter, stack)
        } else if c == '-' {
            "    dec    byte [r8]\n"@ + body_text(s, i + 1, counter, stack)
        } else if c == '.' {
            "    mov    r10b, byte [r8]\n    mov    byte [r9], r10b\n    inc    r9\n"@
                + body_text(s, i + 1, counter, stack)
        } else if c == ',' {
            "\n"@ + body_text(s, i + 1, counter, stack)
        } else if c == '[' {
            ("\n.loop"@ + dec_str(counter + 1) + ":\n"@) + body_text(
                s,
                i + 1,
                counter + 1,
                stack.push(counter + 1),
            )
        } else if c == ']' {
            let l = if stack.len() > 0 {
                stack.last()
            } else {
                0
            };
            let tail = if stack.len() > 0 {
                stack.drop_last()
            } else {
                stack
            };
            ("    cmp     byte [r8], 0\n    jnz    .loop"@ + dec_str(l) + "\n"@) + body_text(
                s,
                i + 1,
                counter,
                tail,
            )
        } else {
            body_text(s, i + 1, counter, stack)
        }
    }
}

/// The complete assembler source for the program `s`: header, translated
/// instructions, footer, and the two reserved-space lines sized by the
/// counts of `.` and `>` in the program.
pub open spec fn spec_assembly(s: Seq<char>) -> Seq<char> {
    header_text() + body_text(s, 0, 0, Seq::empty()) + footer_text() + "output: resb "@ + dec_str(
        occurrences(s, 0, '.'),
    ) + " \n"@ + "cell:   resb "@ + dec_str(occurrences(s, 0, '>') + 1) + " \n"@
}

/// The label numbers of a stack of open loops.
pub open spec fn stack_nats(v: Seq<usize>) -> Seq<nat> {
    v.map_values(|x: usize| x as nat)
}

/// One program to be rendered as assembler source.
pub struct Compilation {
    input: String,
}

impl View for Compilation {
    type V = Seq<char>;

    closed spec fn view(&self) -> Seq<char> {
        self.input@
    }
}

impl Compilation {
    /// Wraps the source text to be compiled.
    pub fn new(input: String) -> (c: Compilation)
        ensures
            c@ == input@,
    {
        Compilation { input }
    }

    /// One data cell per `>` in the program, plus the starting cell.
    fn cells(&self) -> (r: usize)
        requires
            self@.len() < usize::MAX,
        ensures
            r == occurrences(self@, 0, '>') + 1,
    {
        let n: usize = self.input.unicode_len();
        let mut count: usize = 0;
        let mut i: usize = 0;
        while i < n
            invariant
                n == self@.len(),
                i <= n,
                count <= i,
                occurrences(self@, 0, '>') == count + occurrences(self@, i as int, '>'),
            decreases n - i,
        {
            if self.input.get_char(i) == '>' {
                count = count + 1;
            }
            i = i + 1;
        }
        count + 1
    }

    /// Number of `.` in the program: the size of the output buffer the
    /// rendered program reserves.
    fn output_calls(&self) -> (r: usize)
        ensures
            r == occurrences(self@, 0, '.'),
    {
        let n: usize = self.input.unicode_len();
        let mut count: usize = 0;
        let mut i: usize = 0;
        while i < n
            invariant
                n == self@.len(),
                i <= n,
                count <= i,
                occurrences(self@, 0, '.') == count + occurrences(self@, i as int, '.'),
            decreases n - i,
        {
            if self.input.get_char(i) == '.' {
                count = count + 1;
            }
            i = i + 1;
        }
        count
    }

    /// Renders the program as a complete assembler source file.
    pub fn generate_assembly(&self) -> (r: String)
        requires
            brackets_ok(self@, 0, 0),
            self@.len() < usize::MAX,
        ensures
            r@ == spec_assembly(self@),
    {
        let ghost s = self@;
        let mut output = String::new();
        output.append(
            "global    _main\nextern    _printf\ndefault    rel\n\n\nsection   .text\n_main:  \n    sub    rsp, 8 ; Align the stack pointer \n    mov    r8, cell ; r8 will be our data pointer\n    mov    r9, output ; r9 will be our output pointer\n",
        );
        let n: usize = self.input.unicode_len();
        let mut loop_counter: usize = 0;
        let mut loops_open: Vec<usize> = Vec::new();
        let mut i: usize = 0;
        proof {
            assert(output@ =~= header_text());
            assert(stack_nats(loops_open@) =~= Seq::<nat>::empty());
            assert(header_text() + body_text(s, 0, 0, Seq::empty()) =~= output@ + body_text(
                s,
                0,
                0,
                stack_nats(loops_open@),
            ));
        }
        while i < n
            invariant
                n == s.len(),
                s == self@,
                i <= n,
                loop_counter <= i,
                loops_open@.len() <= i,
                brackets_ok(s, i as int, loops_open@.len() as nat),
                forall|j: int|
                    0 <= j < loops_open@.len() ==> #[trigger] loops_open@[j] <= loop_counter,
                header_text() + body_text(s, 0, 0, Seq::empty()) == output@ + body_text(
                    s,
                    i as int,
                    loop_counter as nat,
                    stack_nats(loops_open@),
                ),
            decreases n - i,
        {
            let ghost prev = output@;
            let ghost st0 = stack_nats(loops_open@);
            let ghost ctr0 = loop_counter as nat;
            let c = self.input.get_char(i);
            match c {
                '>' => {
                    output.append("    inc    r8\n");
                    proof {
                        assert(prev + ("    inc    r8\n"@ + body_text(s, i + 1, ctr0, st0))
                            =~= output@ + body_text(s, i + 1, ctr0, st0));
                    }
                },
                '<' => {
                    output.append("    dec    r8\n");
                    proof {
                        assert(prev + ("    dec    r8\n"@ + body_text(s, i + 1, ctr0, st0))
                            =~= output@ + body_text(s, i + 1, ctr0, st0));
                    }
                },
                '+' => {
                    output.append("    inc    byte [r8]\n");
                    proof {
                        assert(prev + ("    inc    byte [r8]\n"@ + body_text(s, i + 1, ctr0, st0))
                            =~= output@ + body_text(s, i + 1, ctr0, st0));
                    }
                },
                '-' => {
                    output.append("    dec    byte [r8]\n");
                    proof {
                        assert(prev + ("    dec    byte [r8]\n"@ + body_text(s, i + 1, ctr0, st0))
                            =~= output@ + body_text(s, i + 1, ctr0, st0));
                    }
                },
                '.' => {
                    output.append(
                        "    mov    r10b, byte [r8]\n    mov    byte [r9], r10b\n    inc    r9\n",
                    );
                    proof {
                        assert(prev + (
                        "    mov    r10b, byte [r8]\n    mov    byte [r9], r10b\n    inc    r9\n"@
                            + body_text(s, i + 1, ctr0, st0)) =~= output@ + body_text(
                            s,
                            i + 1,
                            ctr0,
                            st0,
                        ));
                    }
                },
                ',' => {
                    output.append("\n");
                    proof {
                        assert(prev + ("\n"@ + body_text(s, i + 1, ctr0, st0)) =~= output@
                            + body_text(s, i + 1, ctr0, st0));
                    }
                },
                '[' => {
                    loop_counter = loop_counter + 1;
                    loops_open.push(loop_counter);
                    output.append("\n.loop");
                    let t = usize_to_string(loop_counter);
                    output.append(t.as_str());
                    output.append(":\n");
                    proof {
                        assert(stack_nats(loops_open@) =~= st0.push(ctr0 + 1));
                        assert(prev + (("\n.loop"@ + dec_str(ctr0 + 1) + ":\n"@) + body_text(
                            s,
                            i + 1,
                            ctr0 + 1,
                            st0.push(ctr0 + 1),
                        )) =~= output@ + body_text(s, i + 1, ctr0 + 1, st0.push(ctr0 + 1)));
                    }
                },
                ']' => {
                    let l: usize = match loops_open.pop() {
                        Some(e) => e,
                        None => {
                            proof {
                                assert(false);
                            }
                            0
                        },
                    };
                    output.append("    cmp     byte [r8], 0\n    jnz    .loop");
                    let t = usize_to_string(l);
                    output.append(t.as_str());
                    output.append("\n");
                    proof {
                        assert(stack_nats(loops_open@) =~= st0.drop_last());
                        assert(l as nat == st0.last());
                        assert(prev + (("    cmp     byte [r8], 0\n    jnz    .loop"@ + dec_str(
                            st0.last(),
                        ) + "\n"@) + body_text(s, i + 1, ctr0, st0.drop_last())) =~= output@
                            + body_text(s, i + 1, ctr0, st0.drop_last()));
                    }
                },
                _ => {},
            }
            i = i + 1;
        }
        proof {
            assert(body_text(s, n as int, loop_counter as nat, stack_nats(loops_open@))
                =~= Seq::<char>::empty());
            assert(output@ + Seq::<char>::empty() =~= output@);
            assert(output@ =~= header_text() + body_text(s, 0, 0, Seq::empty()));
        }
        output.append(
            "    mov rax, 0\n    mov rdi, output\n    call _printf\n    add rsp, 8 ; Undo stack alignment\nret\n    mov    rax, 0x2000001 ; Exit\n    mov    rdi, 0\n    syscall\n\nsection   .bss\n\n",
        );
        output.append("output: resb ");
        let oc = self.output_calls();
        let t1 = usize_to_string(oc);
        output.append(t1.as_str());
        output.append(" \n");
        output.append("cell:   resb ");
        let ce = self.cells();
        let t2 = usize_to_string(ce);
        output.append(t2.as_str());
        output.append(" \n");
        proof {
            assert(output@ =~= spec_assembly(s));
        }
        output
    }
}

} // verus!
