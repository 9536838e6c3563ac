# perf_kernel

The logic of a small multicore x86_64 research kernel, its bootloader and its
service kernel, written in Verus with contracts that Verus proves.

- `src/` is the verified library: the bitmap frame allocator, the physical
  memory map and its partitioning, paging structures and page arithmetic, the
  fixed-size block heaps, boot information and the bootloader's placement of
  stacks and page tables, ACPI table parsing, PCI and RTL8139 register logic,
  the local APIC start-up state, the saved core state and its comparison, the
  ICMP flag service, the interface address set-up and the network boot
  server's DHCP frame handling.  Each data type has a
  mathematical view; the laws that relate several operations are public proof
  functions beside them.
- `app/` is the hardware side: port and MSR access, physical memory, interrupt
  controllers, logging, the smoltcp interface, the boot server's raw socket and
  the loops that wait on devices.  It hands plain values to the library and acts on what comes back.
- `tests/` runs the library on concrete values.
