pub mod controller;
pub mod download_manager;
pub mod keys;
pub mod mock_data;
pub mod queue;
pub mod scheduler;
pub mod settings;
pub mod sftp_client;
pub mod text;
pub mod tray;
pub mod types;
pub mod worker;
