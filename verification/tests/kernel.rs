//! Tests of the process table, the round-robin scheduler, the syscall
//! dispatcher and the device-facing layers.

use kernel_core::drivers::framebuffer::ConsoleState;
use kernel_core::drivers::framebuffer::Framebuffer;
use kernel_core::drivers::gic::timer_irq_id;
use kernel_core::drivers::keyboard::Keyboard;
use kernel_core::drivers::mailbox::{arm_to_vc, vc_to_arm};
use kernel_core::drivers::uart::{baud_divisors, Uart};
use kernel_core::kernel::process::{ProcessState, ProcessTable, CPU_NONE};
use kernel_core::kernel::syscall;
use kernel_core::kernel::vfs;
use kernel_core::process as flat;
use kernel_core::trap::TrapFrame;

const STACK: usize = 0x10_0000;

fn table_with(n: usize) -> ProcessTable {
    let mut t = ProcessTable::init();
    t.set_stack_pool(0x4000_0000);
    for i in 0..n {
        let pid = t.create(0, "worker", 0x9000, STACK * (i + 1)).unwrap();
        assert_eq!(pid.0 as usize, i + 1);
    }
    t
}

#[test]
fn create_fills_slots_and_queue() {
    let mut t = table_with(3);
    assert_eq!(t.queue_len(), 3);
    let p1 = t.get(kernel_core::kernel::process::ProcessId(1)).unwrap();
    assert_eq!(p1.name, "worker");
    assert_eq!(p1.entry, 0x9000);
    assert!(matches!(p1.state, ProcessState::Ready));
    assert_eq!(p1.running_on, CPU_NONE);
    assert!(p1.in_run_queue);
    assert_eq!(p1.stack_top, STACK);
    assert_eq!(p1.context_sp % 16, 0);
    assert!(p1.context_sp + 280 <= STACK);
    // A process created with no stack draws one from the pool.
    let pid = t.create(0, "pooled", 0x9000, 0).unwrap();
    let p = t.get(pid).unwrap();
    assert_eq!(p.stack_top, 0x4000_0000 + 3 * 0x4000 + 0x4000);
}

#[test]
fn run_queue_conservation_observed() {
    let mut t = table_with(4);
    let flagged = |t: &ProcessTable| -> usize {
        let mut n = 0;
        for pid in 1..=4u32 {
            if let Some(p) = t.get(kernel_core::kernel::process::ProcessId(pid)) {
                if p.in_run_queue {
                    n += 1;
                }
            }
        }
        n
    };
    assert_eq!(flagged(&t), t.queue_len());
    let started = t.start_on_cpu(0);
    assert!(started.is_some());
    assert_eq!(flagged(&t), t.queue_len());
    t.schedule_from_irq(0, 0xF000);
    assert_eq!(flagged(&t), t.queue_len());
    t.schedule_from_irq(0, 0xF000);
    assert_eq!(flagged(&t), t.queue_len());
    assert!(t.set_state(kernel_core::kernel::process::ProcessId(2), ProcessState::Blocked));
    assert_eq!(flagged(&t), t.queue_len());
}

#[test]
fn round_robin_rotation() {
    // Three equal processes: after the first dispatch, each tick hands
    // the core to the next in creation order, with period three.
    let mut t = table_with(3);
    let (entry, _stack) = t.start_on_cpu(0).unwrap();
    assert_eq!(entry, 0x9000);
    assert_eq!(t.current_pid(0).unwrap().0, 1);
    let mut order = Vec::new();
    for _ in 0..6 {
        t.schedule_from_irq(0, 0xF000);
        order.push(t.current_pid(0).unwrap().0);
    }
    assert_eq!(order, vec![2, 3, 1, 2, 3, 1]);
}

#[test]
fn scheduler_degrades_to_current_when_queue_empty() {
    let mut t = ProcessTable::init();
    t.set_stack_pool(0);
    t.create(0, "only", 0x9000, STACK).unwrap();
    let _ = t.start_on_cpu(0).unwrap();
    // Nothing else is runnable: the tick keeps the running process and
    // returns the interrupted frame pointer unchanged.
    let r = t.schedule_from_irq(0, 0xAAA0);
    assert_eq!(r, 0xAAA0);
    assert_eq!(t.current_pid(0).unwrap().0, 1);
    let p = t.get(kernel_core::kernel::process::ProcessId(1)).unwrap();
    assert!(matches!(p.state, ProcessState::Running));
}

#[test]
fn start_on_cpu_with_nothing_runnable() {
    let mut t = ProcessTable::init();
    assert!(t.start_on_cpu(0).is_none());
}

#[test]
fn set_state_refuses_running() {
    let mut t = table_with(1);
    assert!(!t.set_state(kernel_core::kernel::process::ProcessId(1), ProcessState::Running));
    assert!(t.set_state(kernel_core::kernel::process::ProcessId(1), ProcessState::Terminated));
    assert!(!t.set_state(kernel_core::kernel::process::ProcessId(9), ProcessState::Blocked));
}

#[test]
fn descriptor_inheritance() {
    let mut t = ProcessTable::init();
    t.set_stack_pool(0);
    let desc = vfs::FileDesc {
        handle: vfs::FileHandle::DevFb0,
        flags: vfs::OpenFlags::new(false, true, false),
    };
    t.set_init_fd(vfs::FD_STDOUT, Some(desc));
    let pid = t.create(0, "root_task", 0x9000, STACK).unwrap();
    let p = t.get(pid).unwrap();
    assert_eq!(p.fds[vfs::FD_STDOUT], Some(desc));
    assert_eq!(p.fds[vfs::FD_STDIN], None);
    // The child of the running process copies the parent's table.
    t.start_on_cpu(0).unwrap();
    assert!(t.set_fd(pid, 5, Some(desc)));
    let child = t.create(0, "child", 0x9000, STACK).unwrap();
    let c = t.get(child).unwrap();
    assert_eq!(c.fds[5], Some(desc));
    assert_eq!(c.parent, Some(pid));
}

fn svc_frame(num: u64, args: [u64; 4]) -> TrapFrame {
    let mut f = TrapFrame::new(0x9000);
    f.x[8] = num;
    f.x[0] = args[0];
    f.x[1] = args[1];
    f.x[2] = args[2];
    f.x[3] = args[3];
    f
}

const ESR_SVC: u64 = 0x15 << 26;

#[test]
fn unknown_syscall_sentinel() {
    let mut t = table_with(1);
    let _ = t.start_on_cpu(0);
    let mut f = svc_frame(99, [7, 8, 9, 10]);
    f.x[17] = 0xDEAD;
    let before_elr = f.elr;
    let r = syscall::sync_handler(&mut t, 0, ESR_SVC, &mut f);
    assert_eq!(r, syscall::SyscallOutcome::Done);
    assert_eq!(f.x[0], u64::MAX);
    assert_eq!(f.x[1], 8);
    assert_eq!(f.x[2], 9);
    assert_eq!(f.x[3], 10);
    assert_eq!(f.x[8], 99);
    assert_eq!(f.x[17], 0xDEAD);
    assert_eq!(f.elr, before_elr);
    assert_eq!(f.spsr, 0x5);
}

#[test]
fn non_svc_exception_is_fault() {
    let mut t = table_with(1);
    let mut f = svc_frame(1, [0, 0, 0, 0]);
    let r = syscall::sync_handler(&mut t, 0, 0x25u64 << 26, &mut f);
    assert_eq!(r, syscall::SyscallOutcome::Fault { ec: 0x25 });
    assert_eq!(f.x[0], 0);
}

#[test]
fn open_write_read_close_through_syscalls() {
    let mut t = table_with(1);
    let _ = t.start_on_cpu(0);
    let mut console = ConsoleState::new();
    assert!(console.init_console(64, 64, 0xFFFFFF, 0));
    let mut kbd = Keyboard::new();

    // OPEN with a null path pointer fails outright.
    let mut f = svc_frame(syscall::SYSCALL_OPEN, [0, 4, 0, 0]);
    assert_eq!(syscall::sync_handler(&mut t, 0, ESR_SVC, &mut f), syscall::SyscallOutcome::Done);
    assert_eq!(f.x[0], u64::MAX);

    // OPEN of the console device: the dispatcher asks for the path
    // bytes, and completion hands out descriptor 0.
    let mut f = svc_frame(syscall::SYSCALL_OPEN, [0x5000, 8, 2, 0]);
    let r = syscall::sync_handler(&mut t, 0, ESR_SVC, &mut f);
    assert_eq!(r, syscall::SyscallOutcome::FetchPath { ptr: 0x5000, len: 8, flags: 2 });
    syscall::complete_open(&mut t, 0, &mut f, b"/dev/fb0", 2);
    assert_eq!(f.x[0], 0);
    let fd = f.x[0];

    // WRITE through the new descriptor reaches the console.
    let mut f = svc_frame(syscall::SYSCALL_WRITE, [fd, 0x6000, 5, 0]);
    let r = syscall::sync_handler(&mut t, 0, ESR_SVC, &mut f);
    assert_eq!(r, syscall::SyscallOutcome::WriteFrom { fd, ptr: 0x6000, len: 5 });
    syscall::complete_write(&t, 0, &mut f, fd, b"hello", &mut console);
    assert_eq!(f.x[0], 5);

    // READ from a write-only descriptor transfers nothing.
    let mut f = svc_frame(syscall::SYSCALL_READ, [fd, 0x6000, 3, 0]);
    let r = syscall::sync_handler(&mut t, 0, ESR_SVC, &mut f);
    assert_eq!(r, syscall::SyscallOutcome::ReadInto { fd, ptr: 0x6000, len: 3 });
    let mut buf = vec![0u8; 3];
    kbd.poll(b"ab\r");
    syscall::complete_read(&t, 0, &mut f, fd, &mut buf, &mut kbd);
    assert_eq!(f.x[0], 0);

    // CLOSE releases the slot; closing it again still reports success
    // (the slot exists), while an out-of-range number fails.
    let mut f = svc_frame(syscall::SYSCALL_CLOSE, [fd, 0, 0, 0]);
    assert_eq!(syscall::sync_handler(&mut t, 0, ESR_SVC, &mut f), syscall::SyscallOutcome::Done);
    assert_eq!(f.x[0], 0);
    let mut f = svc_frame(syscall::SYSCALL_CLOSE, [77, 0, 0, 0]);
    assert_eq!(syscall::sync_handler(&mut t, 0, ESR_SVC, &mut f), syscall::SyscallOutcome::Done);
    assert_eq!(f.x[0], u64::MAX);
}

#[test]
fn sleep_and_heap_syscalls() {
    let mut t = table_with(1);
    let _ = t.start_on_cpu(0);
    let mut f = svc_frame(syscall::SYSCALL_SLEEP_MS, [25, 0, 0, 0]);
    assert_eq!(
        syscall::sync_handler(&mut t, 0, ESR_SVC, &mut f),
        syscall::SyscallOutcome::Sleep { ms: 25 }
    );
    assert_eq!(f.x[0], 0);

    // Size 0 returns 0 immediately; a bad alignment fails; a good pair
    // is handed to the heap and its result lands in x0.
    let mut f = svc_frame(syscall::SYSCALL_ALLOC, [0, 8, 0, 0]);
    syscall::sync_handler(&mut t, 0, ESR_SVC, &mut f);
    assert_eq!(f.x[0], 0);
    let mut f = svc_frame(syscall::SYSCALL_ALLOC, [16, 3, 0, 0]);
    syscall::sync_handler(&mut t, 0, ESR_SVC, &mut f);
    assert_eq!(f.x[0], u64::MAX);
    let mut f = svc_frame(syscall::SYSCALL_ALLOC, [16, 8, 0, 0]);
    assert_eq!(
        syscall::sync_handler(&mut t, 0, ESR_SVC, &mut f),
        syscall::SyscallOutcome::HeapAlloc { size: 16, align: 8 }
    );
    syscall::store_heap_result(&mut f, 0x7000);
    assert_eq!(f.x[0], 0x7000);
    syscall::store_heap_result(&mut f, 0);
    assert_eq!(f.x[0], u64::MAX);

    // FREE of a null pointer is a no-op returning 0; realloc from null
    // degrades to an allocation, realloc to size 0 degrades to a free.
    let mut f = svc_frame(syscall::SYSCALL_FREE, [0, 16, 8, 0]);
    assert_eq!(syscall::sync_handler(&mut t, 0, ESR_SVC, &mut f), syscall::SyscallOutcome::Done);
    assert_eq!(f.x[0], 0);
    let mut f = svc_frame(syscall::SYSCALL_REALLOC, [0, 16, 32, 8]);
    assert_eq!(
        syscall::sync_handler(&mut t, 0, ESR_SVC, &mut f),
        syscall::SyscallOutcome::HeapAlloc { size: 32, align: 8 }
    );
    let mut f = svc_frame(syscall::SYSCALL_REALLOC, [0x7000, 16, 0, 8]);
    assert_eq!(
        syscall::sync_handler(&mut t, 0, ESR_SVC, &mut f),
        syscall::SyscallOutcome::HeapFree { ptr: 0x7000, size: 16 }
    );
    assert_eq!(f.x[0], 0);
    let mut f = svc_frame(syscall::SYSCALL_REALLOC, [0x7000, 16, 32, 8]);
    assert_eq!(
        syscall::sync_handler(&mut t, 0, ESR_SVC, &mut f),
        syscall::SyscallOutcome::HeapRealloc { ptr: 0x7000, old_size: 16, new_size: 32, align: 8 }
    );
}

#[test]
fn end_to_end_three_workers_periodic() {
    // Three kernel processes sharing one entry point; after the boot
    // core starts, the observed running order over nine ticks is
    // strictly periodic with period three.
    let mut t = ProcessTable::init();
    t.set_stack_pool(0x8000_0000);
    for _ in 0..3 {
        t.create(0, "counter_stub", 0x9000, 0).unwrap();
    }
    let (entry, _) = t.start_on_cpu(0).unwrap();
    assert_eq!(entry, 0x9000);
    let mut observed = Vec::new();
    observed.push(t.current_pid(0).unwrap().0);
    for _ in 0..8 {
        t.schedule_from_irq(0, 0xF000);
        observed.push(t.current_pid(0).unwrap().0);
    }
    for i in 0..observed.len() {
        assert_eq!(observed[i], (i % 3) as u32 + 1);
        if i + 3 < observed.len() {
            assert_eq!(observed[i], observed[i + 3]);
        }
    }
}

#[test]
fn vfs_namespace() {
    assert!(matches!(vfs::lookup(b"/"), Some(vfs::NodeType::Dir)));
    assert!(matches!(vfs::lookup(b"/dev"), Some(vfs::NodeType::Dir)));
    assert!(matches!(vfs::lookup(b"/dev/fb0"), Some(vfs::NodeType::DevFb0)));
    assert!(matches!(vfs::lookup(b"/dev/kbd0"), Some(vfs::NodeType::DevKbd0)));
    assert!(vfs::lookup(b"/dev/null").is_none());
    // Directories cannot be opened; devices can.
    let flags = vfs::OpenFlags::from_bits(3);
    assert!(flags.read && flags.write && !flags.append);
    assert!(vfs::open_path("/dev", flags).is_none());
    let desc = vfs::open_path("/dev/kbd0", flags).unwrap();
    assert!(matches!(desc.handle, vfs::FileHandle::DevKbd0));
    vfs::init();
    vfs::close(&desc);
}

#[test]
fn vfs_read_and_write_devices() {
    let mut console = ConsoleState::new();
    let mut kbd = Keyboard::new();
    let wdesc = vfs::open_path("/dev/fb0", vfs::OpenFlags::new(false, true, false)).unwrap();
    // Without a console, nothing is written.
    assert_eq!(vfs::write(&wdesc, b"xy", &mut console), 0);
    assert!(console.init_console(64, 64, 0xFFFFFF, 0));
    assert_eq!(vfs::write(&wdesc, b"xy", &mut console), 2);
    // A read-only descriptor writes nothing.
    let rdesc = vfs::open_path("/dev/kbd0", vfs::OpenFlags::new(true, false, false)).unwrap();
    assert_eq!(vfs::write(&rdesc, b"xy", &mut console), 0);
    // Keyboard input is drained in order, with carriage returns mapped.
    kbd.poll(b"hi\rx");
    let mut buf = vec![0u8; 3];
    assert_eq!(vfs::read(&rdesc, &mut buf, &mut kbd), 3);
    assert_eq!(buf, vec![b'h', b'i', b'\n']);
    assert_eq!(vfs::read(&rdesc, &mut buf, &mut kbd), 1);
    assert_eq!(buf[0], b'x');
}

#[test]
fn keyboard_ring_capacity() {
    let mut kbd = Keyboard::new();
    let big = vec![b'a'; 300];
    assert_eq!(kbd.poll(&big), 256);
    assert_eq!(kbd.poll(b"zz"), 0);
    let mut out = vec![0u8; 300];
    assert_eq!(kbd.read(&mut out), 256);
    assert_eq!(kbd.read(&mut out), 0);
}

#[test]
fn framebuffer_geometry_and_console() {
    assert!(Framebuffer::init(0, 64).is_none());
    assert!(Framebuffer::init(64, 9000).is_none());
    let mut fb = Framebuffer::init(64, 32).unwrap();
    fb.clear(0x11);
    fb.put_pixel(1, 1, 0x22);
    fb.write_str(0, 0, b"ok\n", 0xFFFFFF, 0);
    let mut console = ConsoleState::new();
    let (w, h) = console.init_console_with_mode(64, 32, 0xFFFFFF, 0).unwrap();
    assert_eq!((w, h), (64, 32));
    assert!(console.write_bytes(b"line one\nline two\n"));
    assert_eq!(
        console.init_console_with_mode(0, 0, 1, 2),
        Err(kernel_core::drivers::framebuffer::InitError::NoFramebuffer)
    );
    assert_eq!(
        kernel_core::drivers::framebuffer::fb_err_str(
            kernel_core::drivers::framebuffer::InitError::NoPitch
        ),
        "no pitch returned"
    );
}

#[test]
fn uart_config_and_baud() {
    let mut u = Uart::new(0x3F20_1000);
    assert!(!u.is_ready());
    u.set_base(0x900_0000);
    u.set_clock_hz(Some(48_000_000));
    u.set_reg_shift(2);
    u.set_reg_io_width(4);
    u.set_skip_init(true);
    u.set_ready(true);
    assert!(u.is_ready());
    assert_eq!(u.reg_addr(0x18), 0x900_0000 + (0x18 << 2));
    // 48 MHz at 115200 baud: the conventional divisor pair.
    assert_eq!(baud_divisors(48_000_000, 115_200), (26, 3));
    assert_eq!(baud_divisors(48_000_000, 0), (0, 0));
}

#[test]
fn board_address_translation() {
    assert_eq!(vc_to_arm(0xC000_1000), 0x1000);
    assert_eq!(arm_to_vc(0x1000), 0x4000_1000);
    assert_eq!(timer_irq_id(), 30);
}

#[test]
fn affinity_table_variant() {
    let mut t = flat::ProcessTable::init();
    t.set_stack_pool(0);
    let a = t.create_on_cpu("pinned", 0x9000, STACK, 0).unwrap();
    let b = t.create_on_cpu("floating", 0x9000, STACK, flat::CPU_ANY).unwrap();
    assert_ne!(a, b);
    // Core 1 skips the record pinned to core 0.
    let one = t.find_next_runnable(1, flat::INVALID_IDX).unwrap();
    assert_eq!(one, 1);
    assert!(t.start_on_cpu(1).is_some());
    let r = t.schedule_from_irq(1, 0xF000);
    assert_ne!(r, 0);
    let got = t.get(a).unwrap();
    assert!(matches!(got.state, flat::ProcessState::Ready));
    assert!(t.set_state(b, flat::ProcessState::Blocked));
}

#[test]
fn seed_frame_matches_mode() {
    let k = kernel_core::kernel::process::seed_frame(0x9000, kernel_core::kernel::process::ProcessMode::Kernel);
    assert_eq!(k.spsr, 0x5);
    assert_eq!(k.elr, 0x9000);
    assert!(k.x.iter().all(|&v| v == 0));
    // A user-mode process starts at the unprivileged level.
    let u = kernel_core::kernel::process::seed_frame(0x9000, kernel_core::kernel::process::ProcessMode::User);
    assert_eq!(u.spsr, 0x0);
    assert_eq!(u.elr, 0x9000);
    assert_eq!(u.sp_el0, 0);
}

#[test]
fn write_paths_exact_counts() {
    let mut t = ProcessTable::init();
    t.set_stack_pool(0);
    let out_desc = vfs::FileDesc {
        handle: vfs::FileHandle::DevFb0,
        flags: vfs::OpenFlags::new(false, true, false),
    };
    let in_desc = vfs::FileDesc {
        handle: vfs::FileHandle::DevKbd0,
        flags: vfs::OpenFlags::new(true, false, false),
    };
    t.set_init_fd(vfs::FD_STDIN, Some(in_desc));
    t.set_init_fd(vfs::FD_STDOUT, Some(out_desc));
    t.create(0, "writer", 0x9000, STACK).unwrap();
    let _ = t.start_on_cpu(0);
    let mut console = ConsoleState::new();
    // Without a console, nothing is transferred.
    assert_eq!(t.write_stdout(0, b"abc", &mut console), 0);
    assert!(console.init_console(64, 64, 0xFFFFFF, 0));
    // With one, the whole buffer goes through.
    assert_eq!(t.write_stdout(0, b"abc", &mut console), 3);
    // Standard error has no descriptor here; a read-only descriptor and
    // an absent one both transfer nothing.
    assert_eq!(t.write_stderr(0, b"abc", &mut console), 0);
    assert_eq!(t.write_current_fd(0, vfs::FD_STDIN, b"abc", &mut console), 0);
    assert_eq!(t.write_current_fd(0, 7, b"abc", &mut console), 0);

    // complete_write records the same exact count in x0.
    let mut f = svc_frame(syscall::SYSCALL_WRITE, [1, 0x6000, 3, 0]);
    syscall::complete_write(&t, 0, &mut f, 1, b"abc", &mut console);
    assert_eq!(f.x[0], 3);
    let mut f = svc_frame(syscall::SYSCALL_WRITE, [0, 0x6000, 3, 0]);
    syscall::complete_write(&t, 0, &mut f, 0, b"abc", &mut console);
    assert_eq!(f.x[0], 0);

    // complete_read drains buffered input exactly, and reports a
    // missing descriptor with the sentinel.
    let mut kbd = Keyboard::new();
    kbd.poll(b"hello");
    let mut buf = vec![0u8; 3];
    let mut f = svc_frame(syscall::SYSCALL_READ, [0, 0x6000, 3, 0]);
    syscall::complete_read(&t, 0, &mut f, 0, &mut buf, &mut kbd);
    assert_eq!(f.x[0], 3);
    assert_eq!(buf, vec![b'h', b'e', b'l']);
    let mut f = svc_frame(syscall::SYSCALL_READ, [5, 0x6000, 3, 0]);
    syscall::complete_read(&t, 0, &mut f, 5, &mut buf, &mut kbd);
    assert_eq!(f.x[0], u64::MAX);

    // complete_open refuses a directory and hands out the lowest free
    // slot on a device path.
    let mut f = svc_frame(syscall::SYSCALL_OPEN, [0x5000, 4, 2, 0]);
    syscall::complete_open(&mut t, 0, &mut f, b"/dev", 2);
    assert_eq!(f.x[0], u64::MAX);
    let mut f = svc_frame(syscall::SYSCALL_OPEN, [0x5000, 8, 2, 0]);
    syscall::complete_open(&mut t, 0, &mut f, b"/dev/fb0", 2);
    assert_eq!(f.x[0], 2);
}

#[test]
fn table_iteration_lists_live_records() {
    let mut t = table_with(3);
    assert!(t.set_state(kernel_core::kernel::process::ProcessId(2), ProcessState::Terminated));
    let all = t.processes();
    assert_eq!(all.len(), 3);
    assert_eq!(all[0].id.0, 1);
    assert_eq!(all[1].id.0, 2);
    assert!(matches!(all[1].state, ProcessState::Terminated));
    assert_eq!(all[2].id.0, 3);
    let flat = flat::ProcessTable::init();
    assert_eq!(flat.processes().len(), 0);
}

#[test]
fn flat_scheduler_step_exact() {
    let mut t = flat::ProcessTable::init();
    t.set_stack_pool(0);
    let a = t.create_on_cpu("first", 0x9000, STACK, flat::CPU_ANY).unwrap();
    let b = t.create_on_cpu("second", 0x9000, 2 * STACK, flat::CPU_ANY).unwrap();
    let (entry, _) = t.start_on_cpu(0).unwrap();
    assert_eq!(entry, 0x9000);
    // The tick saves the frame into the running record and hands the
    // core to the next eligible slot.
    let r = t.schedule_from_irq(0, 0xBEE0);
    let pa = t.get(a).unwrap();
    let pb = t.get(b).unwrap();
    assert_eq!(pa.context_sp, 0xBEE0);
    assert!(matches!(pa.state, flat::ProcessState::Ready));
    assert!(matches!(pb.state, flat::ProcessState::Running));
    assert_eq!(r, pb.context_sp);
}
