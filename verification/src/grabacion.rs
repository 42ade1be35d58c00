//! Decisions of the recording supervisor.
//!
//! One external recording process runs per job. The surrounding process
//! spawns it, races its exit against the cancellation flag, terminates and
//! awaits it on cancellation, and reads the output file's size afterwards;
//! what each of those observations means for the job is decided here.

use crate::errors::InfrastructureError;
use crate::texto::push_char;
use vstd::prelude::*;

verus! {

/// The decimal digits of a nonnegative number, most significant first.
pub open spec fn digitos_de(n: int) -> Seq<char>
    decreases n,
{
    if n < 10 {
        seq![((48 + n) as char)]
    } else {
        digitos_de(n / 10).push(((48 + n % 10) as char))
    }
}

/// The decimal rendering of an integer, with a leading minus when negative.
pub open spec fn texto_entero(n: int) -> Seq<char> {
    if n < 0 {
        seq!['-'] + digitos_de(-n)
    } else {
        digitos_de(n)
    }
}

fn anexar_digitos(s: &mut String, n: u64)
    ensures
        final(s)@ == old(s)@ + digitos_de(n as int),
    decreases n,
{
    if n < 10 {
        push_char(s, ((48 + n) as u8) as char);
        proof {
            assert(s@ =~= old(s)@ + digitos_de(n as int));
        }
    } else {
        proof {
            assert(n / 10 < n && n / 10 >= 0) by (nonlinear_arith)
                requires
                    n >= 10,
            ;
        }
        anexar_digitos(s, n / 10);
        push_char(s, ((48 + (n % 10)) as u8) as char);
        proof {
            assert(s@ =~= old(s)@ + digitos_de(n as int));
        }
    }
}

fn anexar_entero(s: &mut String, n: i32)
    ensures
        final(s)@ == old(s)@ + texto_entero(n as int),
{
    if n < 0 {
        push_char(s, '-');
        let magnitud: i64 = -(n as i64);
        anexar_digitos(s, magnitud as u64);
        proof {
            assert(s@ =~= old(s)@ + texto_entero(n as int));
        }
    } else {
        anexar_digitos(s, n as u64);
    }
}

/// The default minimum size a finished recording must reach to be kept.
pub const TAMANO_MINIMO_DEFECTO: u64 = 1024;

/// Whether to launch the recording process at all.
#[derive(Debug, Clone, Copy, PartialEq, Eq, Structural)]
pub enum AccionLanzamiento {
    Lanzar,
    CancelarAntes,
}

/// Cancellation already signaled before launch fails the job as cancelled
/// without ever spawning the process.
pub fn decidir_lanzamiento(cancelado: bool) -> (r: AccionLanzamiento)
    ensures
        r == if cancelado {
            AccionLanzamiento::CancelarAntes
        } else {
            AccionLanzamiento::Lanzar
        },
{
    if cancelado {
        AccionLanzamiento::CancelarAntes
    } else {
        AccionLanzamiento::Lanzar
    }
}

/// What the race between process exit and cancellation reported.
#[derive(Debug, Clone, Copy, PartialEq, Eq, Structural)]
pub enum EventoGrabacion {
    /// The process exited on its own; `exito` is its status and `codigo`
    /// its exit code, absent when the process was ended by a signal.
    Salio { exito: bool, codigo: Option<i32> },
    /// Waiting for the process itself failed.
    FalloEspera,
    /// The cancellation flag turned while recording; the process has been
    /// asked to terminate and has been awaited.
    Cancelado,
}

/// The message a failed exit carries: it names the exit status.
pub open spec fn mensaje_salida(codigo: Option<i32>) -> Seq<char> {
    match codigo {
        Some(c) => "FFmpeg exited with status: "@ + texto_entero(c as int),
        None => "FFmpeg was terminated by a signal"@,
    }
}

/// The job's recording result for each way the race can end: a clean exit
/// succeeds, a failed exit is a recording error naming the exit status, a
/// failed wait is a recording error, and a mid-recording cancellation is
/// reported as cancelled, never as failed.
pub fn resultado_grabacion(evento: &EventoGrabacion) -> (r: Result<(), InfrastructureError>)
    ensures
        match evento {
            EventoGrabacion::Salio { exito, codigo } => if *exito {
                r is Ok
            } else {
                r matches Err(InfrastructureError::RecordingError(m)) && m@ == mensaje_salida(
                    *codigo,
                )
            },
            EventoGrabacion::FalloEspera => r matches Err(
                InfrastructureError::RecordingError(_),
            ),
            EventoGrabacion::Cancelado => r matches Err(
                InfrastructureError::RecordingCancelled,
            ),
        },
{
    match evento {
        EventoGrabacion::Salio { exito, codigo } => if *exito {
            Ok(())
        } else {
            match codigo {
                Some(c) => {
                    let mut mensaje = "FFmpeg exited with status: ".to_owned();
                    anexar_entero(&mut mensaje, *c);
                    Err(InfrastructureError::RecordingError(mensaje))
                },
                None => Err(
                    InfrastructureError::RecordingError(
                        "FFmpeg was terminated by a signal".to_owned(),
                    ),
                ),
            }
        },
        EventoGrabacion::FalloEspera => Err(
            InfrastructureError::RecordingError("Failed to wait for ffmpeg".to_owned()),
        ),
        EventoGrabacion::Cancelado => Err(InfrastructureError::RecordingCancelled),
    }
}

/// The launch failure, telling a missing recorder binary apart from any
/// other way the spawn can fail.
pub fn error_lanzamiento(no_encontrado: bool) -> (r: InfrastructureError)
    ensures
        r matches InfrastructureError::RecordingError(m) && m@ == (if no_encontrado {
            "FFmpeg binary not found"@
        } else {
            "Failed to start ffmpeg"@
        }),
{
    if no_encontrado {
        InfrastructureError::RecordingError("FFmpeg binary not found".to_owned())
    } else {
        InfrastructureError::RecordingError("Failed to start ffmpeg".to_owned())
    }
}

/// What to do with the finished recording's output file.
#[derive(Debug, Clone, Copy, PartialEq, Eq, Structural)]
pub enum VeredictoTamano {
    /// Under the minimum: delete the file and report the job skipped as too
    /// small — not failed.
    BorrarPequeno,
    Conservar,
}

/// A finished recording below the configured minimum size is deleted and
/// skipped; at or above it, it is kept and the job succeeded.
pub fn evaluar_tamano(tamano: u64, minimo: u64) -> (r: VeredictoTamano)
    ensures
        r == if tamano < minimo {
            VeredictoTamano::BorrarPequeno
        } else {
            VeredictoTamano::Conservar
        },
{
    if tamano < minimo {
        VeredictoTamano::BorrarPequeno
    } else {
        VeredictoTamano::Conservar
    }
}

} // verus!
