pub mod frame_allocator;
