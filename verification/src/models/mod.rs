pub mod thread_command;
