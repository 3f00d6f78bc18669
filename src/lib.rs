//! Validators and formatters for Brazilian documents and text columns:
//! CPF / CNPJ checksums, phone numbers, accent stripping, title case and
//! pig latin. Every transform is a pure function of one string.

mod text_buf;
pub mod digits;
pub mod cpf_cnpj;
pub mod pattern;
pub mod phone;
pub mod text_utils;
