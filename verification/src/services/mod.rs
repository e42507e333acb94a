pub mod thread_manager;
