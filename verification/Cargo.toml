[package]
name = "sheep_shed"
version = "0.1.0"
edition = "2021"
publish = false

[dependencies]
rand = "=0.8.8"
aws-config = "1"
aws-sdk-dynamodb = "1"
aws-sdk-eventbridge = "1"
aws_lambda_events = "*"
env_logger = "*"
lambda_http = "*"
lambda_runtime = "*"
log = "0.4"
serde = { version = "1", features = ["derive"] }
serde_dynamo = { version = "4", features = ["aws-sdk-dynamodb+1"] }
serde_json = "1"
serde_type_name = "*"
thiserror = "1"
tokio = { version = "1", features = ["full"] }
