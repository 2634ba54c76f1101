use kernel_core::allocator::LinkedListAllocator;
use kernel_core::interrupts::InterruptIndex;
use kernel_core::userspace::{current_ring, is_user_ring};

#[test]
fn interrupt_vector_numbers() {
    assert_eq!(InterruptIndex::Timer.as_u8(), 32);
    assert_eq!(InterruptIndex::Keyboard.as_u8(), 33);
    assert_eq!(InterruptIndex::Timer.as_usize(), 32);
    assert_eq!(InterruptIndex::Keyboard.as_usize(), 33);
}

#[test]
fn ring_detection_from_selector() {
    // a typical kernel code selector: index 1, ring 0
    assert_eq!(current_ring(0x08), 0);
    assert!(!is_user_ring(0x08));
    // a typical user code selector: ring 3 in the low bits
    assert_eq!(current_ring(0x33), 3);
    assert!(is_user_ring(0x33));
}

#[test]
fn request_adjustment() {
    // a 100-byte request aligned to 8 is served as 104 bytes aligned to 8
    assert_eq!(LinkedListAllocator::size_align(100, 8), (104, 8));
    // alignment is raised to the free-list node's; size to its footprint
    assert_eq!(LinkedListAllocator::size_align(1, 1), (16, 8));
    // size is rounded to a multiple of the (raised) alignment
    assert_eq!(LinkedListAllocator::size_align(10, 64), (64, 64));
}
