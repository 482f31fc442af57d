# dh_vmm

The core of a deterministic KVM hypervisor for x86_64 Linux hosts: one guest
vCPU per slot, guest time as a pure function of retired instructions, exact
instruction-boundary landing, deterministic interrupt injection, and a
canonical state hash over vCPU state, device sections and dirty pages.

## Layout

- `src/` is the library, verified with Verus. Every decision the hypervisor
  takes is here, with a contract: the slot state machine and capability
  gate (`lib.rs`), virtual time (`vt`), agenda compilation (`agenda`),
  run-control decisions (`runctl`), boundary landing (`boundary`),
  injection (`inject`), the CPUID mask (`cpuid`), the MSR policy (`msr`),
  exit classification and slot sizing (`kvm`), dirty-page bookkeeping
  (`dirty`), XSAVE canonicalization (`xsave`), the machine configuration
  and its canonical encoding (`config`), ELF and bzImage boot planning
  (`boot`), the snapshot `VCPU` section codec (`vcpu_state`), the local
  APIC model (`lapic`), TSC alignment (`tsc`) and the state-hash chain
  (`hash`). The public `lemma_*` proof functions state the laws that span
  several functions (round trips, idempotence, injectivity of encodings,
  reachability of the slot states).
- `app/` is the host side: the KVM ioctls, guest-memory writes, memfd
  sealing, the dirty-ring mapping, thread placement and the run loop that
  performs what the library decides.
- `tests/` exercises the library on concrete values.

The only outside crate the library calls is blake3 (`digest`); the KVM,
vm-memory and libc crates are used from `app/`.
