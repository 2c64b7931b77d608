[package]
name = "lenso_access_control"
version = "0.1.0"
edition = "2021"
publish = false

[dependencies]
lenso = "*"
lenso-kernel = "*"
lenso-auth-sdk = "*"
lenso-capability-access-control = "*"
lenso-capability-access-control-admin = "*"
lenso-capability-access-control-directory = "*"
lenso-capability-secrets = "*"
lenso-capability-agent-tool-provider = "*"
lenso-postgres-kit = "*"
lenso-migration = "*"
lenso-migration-d1 = "*"
lenso-native-adapter = "*"
serde = { version = "1", features = ["derive"] }
serde_json = "1"
thiserror = "*"
time = "0.3"
zeroize = "1"
futures = "0.3"
sqlx = { version = "*", default-features = false, features = ["postgres"] }
