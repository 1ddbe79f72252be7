use vstd::prelude::*;
use vstd::bytes::{u16_to_le_bytes, u32_to_le_bytes};
use crate::bytes::{append_bytes, le16, le32};
use crate::permission::{PermissionSet, PermissionValue, grants_network};

verus! {

// ---------------------------------------------------------------------------
// Seccomp: a classic BPF program, 8 bytes per instruction.
// ---------------------------------------------------------------------------

/// A BPF statement: opcode, zero jump offsets, operand.
pub open spec fn bpf_stmt_bytes(code: u16, k: u32) -> Seq<u8> {
    le16(code) + seq![0u8, 0u8] + le32(k)
}

/// A BPF jump: opcode, offsets if true and if false, operand.
pub open spec fn bpf_jump_bytes(code: u16, k: u32, jt: u8, jf: u8) -> Seq<u8> {
    le16(code) + seq![jt, jf] + le32(k)
}

/// `BPF_LD | BPF_W | BPF_ABS`
pub open spec fn op_load() -> u16 {
    0x20
}

/// `BPF_JMP | BPF_JEQ | BPF_K`
pub open spec fn op_jeq() -> u16 {
    0x15
}

/// `BPF_RET | BPF_K`
pub open spec fn op_ret() -> u16 {
    0x06
}

/// `SECCOMP_RET_ALLOW`
pub open spec fn ret_allow() -> u32 {
    0x7fff_0000
}

/// `SECCOMP_RET_ERRNO | EPERM`
pub open spec fn ret_eperm() -> u32 {
    0x0005_0001
}

/// `SECCOMP_RET_KILL`
pub open spec fn ret_kill() -> u32 {
    0
}

/// `AUDIT_ARCH_X86_64`
pub open spec fn arch_x86_64() -> u32 {
    0xC000_003E
}

/// The x86-64 network system calls that a sandbox without network refuses:
/// socket, connect, accept, sendto, recvfrom, sendmsg, recvmsg, shutdown,
/// bind, listen, getsockname, getpeername, socketpair, setsockopt and
/// accept4. No other call is refused.
pub open spec fn blocked_syscalls() -> Seq<u32> {
    seq![41u32, 42, 43, 44, 45, 46, 47, 48, 49, 50, 51, 52, 53, 54, 288]
}

/// The program that allows every system call.
pub open spec fn allow_all_program() -> Seq<u8> {
    bpf_stmt_bytes(op_ret(), ret_allow())
}

/// The rule for one blocked system call: if it is this one, fail with EPERM.
pub open spec fn block_rule(sysno: u32) -> Seq<u8> {
    bpf_jump_bytes(op_jeq(), sysno, 0, 1) + bpf_stmt_bytes(op_ret(), ret_eperm())
}

/// The program that fails the blocked system calls with EPERM: load the
/// architecture, kill unless it is x86-64, load the call number, one rule per
/// blocked call, then allow.
pub open spec fn block_network_program() -> Seq<u8> {
    bpf_stmt_bytes(op_load(), 4) + bpf_jump_bytes(op_jeq(), arch_x86_64(), 1, 0) + bpf_stmt_bytes(
        op_ret(),
        ret_kill(),
    ) + bpf_stmt_bytes(op_load(), 0) + Seq::new(
        blocked_syscalls().len(),
        |i: int| block_rule(blocked_syscalls()[i]),
    ).flatten() + bpf_stmt_bytes(op_ret(), ret_allow())
}

/// The seccomp program for a permission set: allow everything when the app
/// may use the network, block the network calls otherwise.
pub open spec fn seccomp_program(perm: crate::permission::PermissionSetView) -> Seq<u8> {
    if grants_network(perm.network) {
        allow_all_program()
    } else {
        block_network_program()
    }
}

fn bpf_stmt(code: u16, k: u32) -> (r: Vec<u8>)
    ensures
        r@ == bpf_stmt_bytes(code, k),
{
    let mut buf = u16_to_le_bytes(code);
    buf.push(0);
    buf.push(0);
    append_bytes(&mut buf, u32_to_le_bytes(k).as_slice());
    assert(buf@ =~= bpf_stmt_bytes(code, k));
    buf
}

fn bpf_jump(code: u16, k: u32, jt: u8, jf: u8) -> (r: Vec<u8>)
    ensures
        r@ == bpf_jump_bytes(code, k, jt, jf),
{
    let mut buf = u16_to_le_bytes(code);
    buf.push(jt);
    buf.push(jf);
    append_bytes(&mut buf, u32_to_le_bytes(k).as_slice());
    assert(buf@ =~= bpf_jump_bytes(code, k, jt, jf));
    buf
}

fn seccomp_allow_all() -> (r: Vec<u8>)
    ensures
        r@ == allow_all_program(),
{
    bpf_stmt(0x06, 0x7fff_0000)
}

fn block_network_syscalls() -> (r: Vec<u8>)
    ensures
        r@ == block_network_program(),
{
    let blacklist: Vec<u32> = vec![41, 42, 43, 44, 45, 46, 47, 48, 49, 50, 51, 52, 53, 54, 288];
    assert(blacklist@ =~= blocked_syscalls());
    let mut prog: Vec<u8> = Vec::new();
    append_bytes(&mut prog, bpf_stmt(0x20, 4).as_slice());
    append_bytes(&mut prog, bpf_jump(0x15, 0xC000_003E, 1, 0).as_slice());
    append_bytes(&mut prog, bpf_stmt(0x06, 0).as_slice());
    append_bytes(&mut prog, bpf_stmt(0x20, 0).as_slice());
    let ghost head = prog@;
    let ghost rules = Seq::new(blocked_syscalls().len(), |i: int| block_rule(blocked_syscalls()[i]));
    let mut i: usize = 0;
    assert(rules.take(0).flatten() =~= Seq::<u8>::empty());
    while i < blacklist.len()
        invariant
            blacklist@ == blocked_syscalls(),
            rules == Seq::new(blocked_syscalls().len(), |i: int| block_rule(blocked_syscalls()[i])),
            i <= blacklist@.len(),
            prog@ == head + rules.take(i as int).flatten(),
        decreases blacklist@.len() - i,
    {
        let sysno = blacklist[i];
        append_bytes(&mut prog, bpf_jump(0x15, sysno, 0, 1).as_slice());
        append_bytes(&mut prog, bpf_stmt(0x06, 0x0005_0001).as_slice());
        proof {
            assert(rules.take(i + 1) =~= rules.take(i as int).push(block_rule(sysno)));
            rules.take(i as int).lemma_flatten_push(block_rule(sysno));
        }
        i = i + 1;
    }
    assert(rules.take(15) =~= rules);
    append_bytes(&mut prog, bpf_stmt(0x06, 0x7fff_0000).as_slice());
    prog
}

/// The seccomp program for a permission set.
pub fn generate_seccomp_filter(perm: &PermissionSet) -> (r: Vec<u8>)
    ensures
        r@ == seccomp_program(perm@),
{
    if perm.network.allows_network() {
        seccomp_allow_all()
    } else {
        block_network_syscalls()
    }
}

} // verus!

verus! {

// ---------------------------------------------------------------------------
// What a seccomp program decides, for the instructions the library writes.
// ---------------------------------------------------------------------------

/// The opcode of instruction `pc`.
pub open spec fn insn_code(prog: Seq<u8>, pc: int) -> u16 {
    vstd::bytes::spec_u16_from_le_bytes(prog.subrange(8 * pc, 8 * pc + 2))
}

/// The operand of instruction `pc`.
pub open spec fn insn_k(prog: Seq<u8>, pc: int) -> u32 {
    vstd::bytes::spec_u32_from_le_bytes(prog.subrange(8 * pc + 4, 8 * pc + 8))
}

/// Runs a program on a system call with number `nr` made on architecture
/// `arch`, from instruction `pc` with accumulator `acc`: loads of offset 0
/// (the number) and 4 (the architecture), jumps on equality, returns.
/// `None` when the program runs off its end, runs out of steps or meets
/// another instruction.
pub open spec fn run(prog: Seq<u8>, pc: int, acc: u32, nr: u32, arch: u32, fuel: nat) -> Option<u32>
    decreases fuel,
{
    if fuel == 0 || pc < 0 || 8 * pc + 8 > prog.len() {
        None
    } else {
        let code = insn_code(prog, pc);
        let k = insn_k(prog, pc);
        if code == op_ret() {
            Some(k)
        } else if code == op_load() && k == 0 {
            run(prog, pc + 1, nr, nr, arch, (fuel - 1) as nat)
        } else if code == op_load() && k == 4 {
            run(prog, pc + 1, arch, nr, arch, (fuel - 1) as nat)
        } else if code == op_jeq() {
            let next = if acc == k {
                pc + 1 + prog[8 * pc + 2]
            } else {
                pc + 1 + prog[8 * pc + 3]
            };
            run(prog, next, acc, nr, arch, (fuel - 1) as nat)
        } else {
            None
        }
    }
}

/// What the seccomp filter decides for a system call (64 steps are plenty).
pub open spec fn filter_verdict(prog: Seq<u8>, nr: u32, arch: u32) -> Option<u32> {
    run(prog, 0, 0, nr, arch, 64)
}

proof fn lemma_insn_len(code: u16, k: u32, jt: u8, jf: u8)
    ensures
        bpf_stmt_bytes(code, k).len() == 8,
        bpf_jump_bytes(code, k, jt, jf).len() == 8,
{
    crate::bytes::lemma_le_roundtrip();
    assert(le16(code).len() == 2);
    assert(le32(k).len() == 4);
}

proof fn lemma_stmt_fields(pre: Seq<u8>, code: u16, k: u32, post: Seq<u8>)
    requires
        pre.len() % 8 == 0,
    ensures
        ({
            let p = pre + bpf_stmt_bytes(code, k) + post;
            let pc = (pre.len() / 8) as int;
            &&& insn_code(p, pc) == code
            &&& insn_k(p, pc) == k
            &&& p[8 * pc + 2] == 0
            &&& p[8 * pc + 3] == 0
        }),
{
    crate::bytes::lemma_le_roundtrip();
    let p = pre + bpf_stmt_bytes(code, k) + post;
    let o = pre.len() as int;
    assert(8 * (pre.len() / 8) == o);
    assert(p.subrange(o, o + 2) =~= le16(code));
    assert(p.subrange(o + 4, o + 8) =~= le32(k));
}

proof fn lemma_jump_fields(pre: Seq<u8>, code: u16, k: u32, jt: u8, jf: u8, post: Seq<u8>)
    requires
        pre.len() % 8 == 0,
    ensures
        ({
            let p = pre + bpf_jump_bytes(code, k, jt, jf) + post;
            let pc = (pre.len() / 8) as int;
            &&& insn_code(p, pc) == code
            &&& insn_k(p, pc) == k
            &&& p[8 * pc + 2] == jt
            &&& p[8 * pc + 3] == jf
        }),
{
    crate::bytes::lemma_le_roundtrip();
    let p = pre + bpf_jump_bytes(code, k, jt, jf) + post;
    let o = pre.len() as int;
    assert(8 * (pre.len() / 8) == o);
    assert(p.subrange(o, o + 2) =~= le16(code));
    assert(p.subrange(o + 4, o + 8) =~= le32(k));
}

/// The rules for the blocked calls from `k` on.
pub open spec fn rules_from(k: int) -> Seq<u8> {
    Seq::new(
        (blocked_syscalls().len() - k) as nat,
        |i: int| block_rule(blocked_syscalls()[k + i]),
    ).flatten()
}

proof fn lemma_rules_split(k: int)
    requires
        0 <= k < blocked_syscalls().len(),
    ensures
        rules_from(k) == block_rule(blocked_syscalls()[k]) + rules_from(k + 1),
{
    let s = Seq::new(
        (blocked_syscalls().len() - k) as nat,
        |i: int| block_rule(blocked_syscalls()[k + i]),
    );
    assert(s.drop_first() =~= Seq::new(
        (blocked_syscalls().len() - (k + 1)) as nat,
        |i: int| block_rule(blocked_syscalls()[k + 1 + i]),
    ));
}

/// One step of a return instruction.
proof fn lemma_step_ret(p: Seq<u8>, pc: int, acc: u32, nr: u32, arch: u32, fuel: nat)
    requires
        fuel > 0,
        0 <= pc,
        8 * pc + 8 <= p.len(),
        insn_code(p, pc) == op_ret(),
    ensures
        run(p, pc, acc, nr, arch, fuel) == Some(insn_k(p, pc)),
{
}

/// One step of a load instruction.
proof fn lemma_step_load(p: Seq<u8>, pc: int, acc: u32, nr: u32, arch: u32, fuel: nat)
    requires
        fuel > 0,
        0 <= pc,
        8 * pc + 8 <= p.len(),
        insn_code(p, pc) == op_load(),
        insn_k(p, pc) == 0 || insn_k(p, pc) == 4,
    ensures
        run(p, pc, acc, nr, arch, fuel) == run(
            p,
            pc + 1,
            if insn_k(p, pc) == 0 { nr } else { arch },
            nr,
            arch,
            (fuel - 1) as nat,
        ),
{
}

/// One step of a jump instruction.
proof fn lemma_step_jeq(p: Seq<u8>, pc: int, acc: u32, nr: u32, arch: u32, fuel: nat)
    requires
        fuel > 0,
        0 <= pc,
        8 * pc + 8 <= p.len(),
        insn_code(p, pc) == op_jeq(),
    ensures
        run(p, pc, acc, nr, arch, fuel) == run(
            p,
            if acc == insn_k(p, pc) { pc + 1 + p[8 * pc + 2] } else { pc + 1 + p[8 * pc + 3] },
            acc,
            nr,
            arch,
            (fuel - 1) as nat,
        ),
{
}

/// The blocked-call part of the program, from rule `k` on: a call among the
/// remaining blocked ones gets EPERM, any other call is allowed.
proof fn lemma_rules_verdict(pre: Seq<u8>, k: int, nr: u32, arch: u32, fuel: nat)
    requires
        pre.len() % 8 == 0,
        0 <= k <= blocked_syscalls().len(),
        fuel >= 2 * (blocked_syscalls().len() - k) + 1,
    ensures
        ({
            let p = pre + rules_from(k) + bpf_stmt_bytes(op_ret(), ret_allow());
            run(p, (pre.len() / 8) as int, nr, nr, arch, fuel) == if (exists|j: int|
                k <= j < blocked_syscalls().len() && blocked_syscalls()[j] == nr) {
                Some(ret_eperm())
            } else {
                Some(ret_allow())
            }
        }),
    decreases blocked_syscalls().len() - k,
{
    let p = pre + rules_from(k) + bpf_stmt_bytes(op_ret(), ret_allow());
    let pc = (pre.len() / 8) as int;
    assert(8 * pc == pre.len());
    lemma_insn_len(op_ret(), ret_allow(), 0, 0);
    if k == blocked_syscalls().len() {
        assert(rules_from(k) =~= Seq::<u8>::empty());
        assert(p =~= pre + bpf_stmt_bytes(op_ret(), ret_allow()) + Seq::empty());
        lemma_stmt_fields(pre, op_ret(), ret_allow(), Seq::empty());
        lemma_step_ret(p, pc, nr, nr, arch, fuel);
    } else {
        let sys = blocked_syscalls()[k];
        lemma_rules_split(k);
        let rest = rules_from(k + 1) + bpf_stmt_bytes(op_ret(), ret_allow());
        let jump = bpf_jump_bytes(op_jeq(), sys, 0, 1);
        let ret = bpf_stmt_bytes(op_ret(), ret_eperm());
        lemma_insn_len(op_jeq(), sys, 0, 1);
        lemma_insn_len(op_ret(), ret_eperm(), 0, 0);
        assert(p =~= pre + jump + (ret + rest));
        lemma_jump_fields(pre, op_jeq(), sys, 0, 1, ret + rest);
        lemma_step_jeq(p, pc, nr, nr, arch, fuel);
        let pre1 = pre + jump;
        assert(p =~= pre1 + ret + rest);
        assert(pre1.len() == pre.len() + 8);
        assert((pre1.len() / 8) as int == pc + 1);
        lemma_stmt_fields(pre1, op_ret(), ret_eperm(), rest);
        let pre2 = pre1 + ret;
        assert(pre2.len() == pre.len() + 16);
        assert((pre2.len() / 8) as int == pc + 2);
        assert(p =~= pre2 + rules_from(k + 1) + bpf_stmt_bytes(op_ret(), ret_allow()));
        if nr == sys {
            lemma_step_ret(p, pc + 1, nr, nr, arch, (fuel - 1) as nat);
            assert(k <= k < blocked_syscalls().len() && blocked_syscalls()[k] == nr);
        } else {
            lemma_rules_verdict(pre2, k + 1, nr, arch, (fuel - 1) as nat);
            assert((exists|j: int| k <= j < blocked_syscalls().len() && blocked_syscalls()[j] == nr)
                == (exists|j: int|
                k + 1 <= j < blocked_syscalls().len() && blocked_syscalls()[j] == nr));
        }
    }
}

/// The filter written for an app without network access fails exactly the
/// blocked network calls with EPERM on x86-64 (and allows every other call),
/// and kills any call made under another architecture. The filter for an app
/// with network access allows every call.
pub proof fn lemma_seccomp_verdicts(perm: crate::permission::PermissionSetView, nr: u32, arch: u32)
    ensures
        grants_network(perm.network) ==> filter_verdict(seccomp_program(perm), nr, arch) == Some(
            ret_allow(),
        ),
        !grants_network(perm.network) && arch != arch_x86_64() ==> filter_verdict(
            seccomp_program(perm),
            nr,
            arch,
        ) == Some(ret_kill()),
        !grants_network(perm.network) && arch == arch_x86_64() ==> filter_verdict(
            seccomp_program(perm),
            nr,
            arch,
        ) == if blocked_syscalls().contains(nr) {
            Some(ret_eperm())
        } else {
            Some(ret_allow())
        },
{
    let p = seccomp_program(perm);
    if grants_network(perm.network) {
        lemma_insn_len(op_ret(), ret_allow(), 0, 0);
        lemma_stmt_fields(Seq::empty(), op_ret(), ret_allow(), Seq::empty());
        assert(p =~= Seq::<u8>::empty() + allow_all_program() + Seq::empty());
        lemma_step_ret(p, 0, 0, nr, arch, 64);
    } else {
        lemma_block_program_verdicts(nr, arch);
    }
}

proof fn lemma_block_program_verdicts(nr: u32, arch: u32)
    ensures
        arch != arch_x86_64() ==> filter_verdict(block_network_program(), nr, arch) == Some(
            ret_kill(),
        ),
        arch == arch_x86_64() ==> filter_verdict(block_network_program(), nr, arch) == if blocked_syscalls().contains(
            nr,
        ) {
            Some(ret_eperm())
        } else {
            Some(ret_allow())
        },
{
    let i0 = bpf_stmt_bytes(op_load(), 4);
    let i1 = bpf_jump_bytes(op_jeq(), arch_x86_64(), 1, 0);
    let i2 = bpf_stmt_bytes(op_ret(), ret_kill());
    let i3 = bpf_stmt_bytes(op_load(), 0);
    let tail = rules_from(0) + bpf_stmt_bytes(op_ret(), ret_allow());
    let p = block_network_program();
    lemma_insn_len(op_load(), 4, 0, 0);
    lemma_insn_len(op_jeq(), arch_x86_64(), 1, 0);
    lemma_insn_len(op_ret(), ret_kill(), 0, 0);
    lemma_insn_len(op_load(), 0, 0, 0);
    assert(Seq::new(blocked_syscalls().len(), |i: int| block_rule(blocked_syscalls()[i])) =~= Seq::new(
        (blocked_syscalls().len() - 0) as nat,
        |i: int| block_rule(blocked_syscalls()[0 + i]),
    ));
    assert(p =~= Seq::<u8>::empty() + i0 + (i1 + i2 + i3 + tail));
    lemma_stmt_fields(Seq::empty(), op_load(), 4, i1 + i2 + i3 + tail);
    assert(p =~= i0 + i1 + (i2 + i3 + tail));
    lemma_jump_fields(i0, op_jeq(), arch_x86_64(), 1, 0, i2 + i3 + tail);
    assert(p =~= (i0 + i1) + i2 + (i3 + tail));
    lemma_stmt_fields(i0 + i1, op_ret(), ret_kill(), i3 + tail);
    assert(p =~= (i0 + i1 + i2) + i3 + tail);
    lemma_stmt_fields(i0 + i1 + i2, op_load(), 0, tail);
    let pre = i0 + i1 + i2 + i3;
    assert(p =~= pre + rules_from(0) + bpf_stmt_bytes(op_ret(), ret_allow()));
    assert(p.len() >= 32);
    lemma_step_load(p, 0, 0, nr, arch, 64);
    lemma_step_jeq(p, 1, arch, nr, arch, 63);
    if arch == arch_x86_64() {
        lemma_step_load(p, 3, arch, nr, arch, 62);
        lemma_rules_verdict(pre, 0, nr, arch, 61);
        assert(blocked_syscalls().contains(nr) == (exists|j: int|
            0 <= j < blocked_syscalls().len() && blocked_syscalls()[j] == nr));
    } else {
        lemma_step_ret(p, 2, arch, nr, arch, 62);
    }
}

} // verus!
